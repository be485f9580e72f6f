//! A snapshot of a directory tree, and the quantities measured over it.
use vstd::prelude::*;

verus! {

/// One entry of a directory listing.
///
/// Modification times are nanoseconds since the Unix epoch; `0` stands for
/// the epoch itself, used where the time could not be read.
#[derive(Debug)]
pub enum Entry {
    /// A regular file (or anything else that is not a directory).
    File { name: String, size: u64, modified: u64 },
    /// A directory whose listing could be read, with the entries it lists.
    Dir { name: String, children: Vec<Entry> },
    /// A directory whose listing could not be read.
    Unreadable { name: String },
}

impl Entry {
    pub open spec fn name_view(self) -> Seq<char> {
        match self {
            Entry::File { name, .. } => name@,
            Entry::Dir { name, .. } => name@,
            Entry::Unreadable { name } => name@,
        }
    }

    /// Whether the entry is a directory, readable or not.
    pub open spec fn is_dir_spec(self) -> bool {
        !(self is File)
    }

    /// The entry's name.
    pub fn name(&self) -> (r: &String)
        ensures
            r@ == self.name_view(),
    {
        match self {
            Entry::File { name, .. } => name,
            Entry::Dir { name, .. } => name,
            Entry::Unreadable { name } => name,
        }
    }

    /// Whether the entry is a directory, readable or not.
    pub fn is_dir(&self) -> (r: bool)
        ensures
            r == self.is_dir_spec(),
    {
        match self {
            Entry::File { .. } => false,
            _ => true,
        }
    }
}

/// Sum of the sizes of the regular files reachable from `e`; nothing below an
/// unreadable directory counts.
pub open spec fn total_size(e: Entry) -> nat
    decreases e,
{
    match e {
        Entry::File { size, .. } => size as nat,
        Entry::Dir { children, .. } => total_size_list(children@),
        Entry::Unreadable { .. } => 0,
    }
}

/// Sum of [`total_size`] over a sequence of entries.
pub open spec fn total_size_list(s: Seq<Entry>) -> nat
    decreases s,
{
    if s.len() == 0 {
        0
    } else {
        total_size_list(s.drop_last()) + total_size(s.last())
    }
}

/// Latest modification time among the regular files reachable from `e`, or
/// the epoch (`0`) where there is none.
pub open spec fn latest_modified(e: Entry) -> u64
    decreases e,
{
    match e {
        Entry::File { modified, .. } => modified,
        Entry::Dir { children, .. } => latest_modified_list(children@),
        Entry::Unreadable { .. } => 0,
    }
}

/// Maximum of [`latest_modified`] over a sequence of entries, `0` for none.
pub open spec fn latest_modified_list(s: Seq<Entry>) -> u64
    decreases s,
{
    if s.len() == 0 {
        0
    } else {
        max_u64(latest_modified_list(s.drop_last()), latest_modified(s.last()))
    }
}

pub open spec fn max_u64(a: u64, b: u64) -> u64 {
    if a >= b {
        a
    } else {
        b
    }
}

/// A byte count as a `u64`: the count itself, or `u64::MAX` where it does not fit.
pub open spec fn capped(n: nat) -> u64 {
    if n > u64::MAX {
        u64::MAX
    } else {
        n as u64
    }
}

/// Whether `f` is a regular file reachable from `e` (the entry itself included),
/// passing only through readable directories.
pub open spec fn reaches_file(e: Entry, f: Entry) -> bool
    decreases e,
{
    match e {
        Entry::File { .. } => f == e,
        Entry::Dir { children, .. } => reaches_file_list(children@, f),
        Entry::Unreadable { .. } => false,
    }
}

/// Whether `f` is a regular file reachable from some entry of `s`.
pub open spec fn reaches_file_list(s: Seq<Entry>, f: Entry) -> bool
    decreases s,
{
    if s.len() == 0 {
        false
    } else {
        reaches_file_list(s.drop_last(), f) || reaches_file(s.last(), f)
    }
}

/// The latest modification time of a tree is the maximum over the regular
/// files reachable from it: no such file is later, and unless it is the epoch
/// some such file has exactly that time.
pub proof fn lemma_latest_is_maximum(e: Entry)
    ensures
        forall|f: Entry| #[trigger] reaches_file(e, f) ==> f->modified <= latest_modified(e),
        latest_modified(e) == 0 || exists|f: Entry|
            #[trigger] reaches_file(e, f) && f->modified == latest_modified(e),
    decreases e,
{
    match e {
        Entry::Dir { children, .. } => {
            assert(decreases_to!(e => e->children));
            assert(decreases_to!(children => children@));
            lemma_latest_is_maximum_list(children@);
            assert forall|f: Entry| #[trigger] reaches_file(e, f) implies f->modified
                <= latest_modified(e) by {
                assert(reaches_file_list(children@, f));
            }
            if latest_modified(e) != 0 {
                let f = choose|f: Entry|
                    reaches_file_list(children@, f) && f->modified == latest_modified_list(
                        children@,
                    );
                assert(reaches_file(e, f));
            }
        },
        _ => {
            assert(reaches_file(e, e) || e is Unreadable);
        },
    }
}

proof fn lemma_latest_is_maximum_list(s: Seq<Entry>)
    ensures
        forall|f: Entry| #[trigger]
            reaches_file_list(s, f) ==> f->modified <= latest_modified_list(s),
        latest_modified_list(s) == 0 || exists|f: Entry|
            #[trigger] reaches_file_list(s, f) && f->modified == latest_modified_list(s),
    decreases s,
{
    if s.len() > 0 {
        let rest = s.drop_last();
        let x = s.last();
        assert(decreases_to!(s => s[s.len() - 1]));
        lemma_latest_is_maximum_list(rest);
        lemma_latest_is_maximum(x);
        assert forall|f: Entry| #[trigger]
            reaches_file_list(s, f) implies f->modified <= latest_modified_list(s) by {
            if reaches_file_list(rest, f) {
                assert(f->modified <= latest_modified_list(rest));
            } else {
                assert(reaches_file(x, f));
                assert(f->modified <= latest_modified(x));
            }
        }
        if latest_modified_list(s) != 0 {
            if latest_modified_list(s) == latest_modified_list(rest) {
                let f = choose|f: Entry|
                    #[trigger] reaches_file_list(rest, f) && f->modified == latest_modified_list(
                        rest,
                    );
                assert(reaches_file_list(s, f));
            } else {
                let f = choose|f: Entry|
                    #[trigger] reaches_file(x, f) && f->modified == latest_modified(x);
                assert(reaches_file_list(s, f));
            }
        }
    }
}

/// The regular files reachable from `e`, in listing order.
pub open spec fn files_of(e: Entry) -> Seq<Entry>
    decreases e,
{
    match e {
        Entry::File { .. } => seq![e],
        Entry::Dir { children, .. } => files_of_list(children@),
        Entry::Unreadable { .. } => seq![],
    }
}

/// The regular files reachable from the entries of `s`, in listing order.
pub open spec fn files_of_list(s: Seq<Entry>) -> Seq<Entry>
    decreases s,
{
    if s.len() == 0 {
        seq![]
    } else {
        files_of_list(s.drop_last()) + files_of(s.last())
    }
}

/// Sum of the sizes of the files of `fs`.
pub open spec fn sum_of_sizes(fs: Seq<Entry>) -> nat
    decreases fs.len(),
{
    if fs.len() == 0 {
        0
    } else {
        sum_of_sizes(fs.drop_last()) + (fs.last()->size as nat)
    }
}

proof fn lemma_sum_of_sizes_concat(a: Seq<Entry>, b: Seq<Entry>)
    ensures
        sum_of_sizes(a + b) == sum_of_sizes(a) + sum_of_sizes(b),
    decreases b.len(),
{
    if b.len() == 0 {
        assert(a + b =~= a);
    } else {
        lemma_sum_of_sizes_concat(a, b.drop_last());
        assert((a + b).drop_last() =~= a + b.drop_last());
    }
}

proof fn lemma_contains_concat(a: Seq<Entry>, b: Seq<Entry>, f: Entry)
    ensures
        (a + b).contains(f) <==> a.contains(f) || b.contains(f),
{
    if a.contains(f) {
        let i = choose|i: int| 0 <= i < a.len() && a[i] == f;
        assert((a + b)[i] == f);
    }
    if b.contains(f) {
        let i = choose|i: int| 0 <= i < b.len() && b[i] == f;
        assert((a + b)[a.len() + i] == f);
    }
    if (a + b).contains(f) {
        let i = choose|i: int| 0 <= i < (a + b).len() && (a + b)[i] == f;
        if i < a.len() {
            assert(a[i] == f);
        } else {
            assert(b[i - a.len()] == f);
        }
    }
}

/// The total size of a tree is the sum of the sizes of the regular files
/// reachable from it, each counted once: the files listed by [`files_of`]
/// are all regular files, they are exactly those that [`reaches_file`]
/// names, and their sizes add up to [`total_size`].
pub proof fn lemma_size_is_sum_over_files(e: Entry)
    ensures
        total_size(e) == sum_of_sizes(files_of(e)),
        forall|k: int| 0 <= k < files_of(e).len() ==> (#[trigger] files_of(e)[k]) is File,
        forall|f: Entry| #[trigger] reaches_file(e, f) <==> files_of(e).contains(f),
    decreases e,
{
    match e {
        Entry::File { .. } => {
            assert(files_of(e).drop_last() =~= Seq::<Entry>::empty());
            assert(sum_of_sizes(files_of(e).drop_last()) == 0);
            assert(files_of(e).last() == e);
            assert forall|f: Entry| #[trigger] reaches_file(e, f) <==> files_of(e).contains(f) by {
                if files_of(e).contains(f) {
                    assert(files_of(e)[0] == f);
                }
                if f == e {
                    assert(files_of(e)[0] == f);
                }
            }
        },
        Entry::Dir { children, .. } => {
            assert(decreases_to!(e => e->children));
            assert(decreases_to!(children => children@));
            lemma_size_is_sum_over_files_list(children@);
            assert forall|f: Entry| #[trigger] reaches_file(e, f) <==> files_of(e).contains(f) by {
                assert(reaches_file(e, f) == reaches_file_list(children@, f));
            }
        },
        Entry::Unreadable { .. } => {
            assert forall|f: Entry| #[trigger] reaches_file(e, f) <==> files_of(e).contains(f) by {
                assert(!files_of(e).contains(f));
            }
        },
    }
}

proof fn lemma_size_is_sum_over_files_list(s: Seq<Entry>)
    ensures
        total_size_list(s) == sum_of_sizes(files_of_list(s)),
        forall|k: int|
            0 <= k < files_of_list(s).len() ==> (#[trigger] files_of_list(s)[k]) is File,
        forall|f: Entry| #[trigger] reaches_file_list(s, f) <==> files_of_list(s).contains(f),
    decreases s,
{
    if s.len() > 0 {
        let rest = s.drop_last();
        let x = s.last();
        assert(decreases_to!(s => s[s.len() - 1]));
        lemma_size_is_sum_over_files_list(rest);
        lemma_size_is_sum_over_files(x);
        lemma_sum_of_sizes_concat(files_of_list(rest), files_of(x));
        let all = files_of_list(s);
        assert(all == files_of_list(rest) + files_of(x));
        assert forall|k: int| 0 <= k < all.len() implies (#[trigger] all[k]) is File by {
            if k < files_of_list(rest).len() {
                assert(all[k] == files_of_list(rest)[k]);
            } else {
                assert(all[k] == files_of(x)[k - files_of_list(rest).len()]);
            }
        }
        assert forall|f: Entry| #[trigger] reaches_file_list(s, f) <==> all.contains(f) by {
            lemma_contains_concat(files_of_list(rest), files_of(x), f);
            assert(reaches_file_list(s, f) == (reaches_file_list(rest, f) || reaches_file(x, f)));
            assert(reaches_file_list(rest, f) <==> files_of_list(rest).contains(f));
            assert(reaches_file(x, f) <==> files_of(x).contains(f));
        }
    } else {
        assert forall|f: Entry| #[trigger] reaches_file_list(s, f) <==> files_of_list(s).contains(
            f,
        ) by {
            assert(!files_of_list(s).contains(f));
        }
    }
}

} // verus!
