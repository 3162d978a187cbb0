//! One directory of the mirroring walk: what happens to each of its entries,
//! and what a pass leaves in the destination directory.
use vstd::prelude::*;

use crate::naming::{is_markup_file_name, is_markup_name, page_file_name, page_name};

verus! {

/// What kind of filesystem object a directory entry is.
#[derive(Clone, Copy, PartialEq, Eq, Structural, Debug)]
pub enum EntryKind {
    File,
    Dir,
    /// Neither a regular file nor a directory (a dangling link, a socket, ...).
    Other,
}

/// One entry of a source directory, as listed.
#[derive(Clone, Debug)]
pub struct Entry {
    /// The entry's file name; invalid Unicode is replaced by U+FFFD.
    pub name: String,
    /// Whether `name` is the file name exactly (it was valid Unicode).
    pub exact_name: bool,
    pub kind: EntryKind,
}

/// What the walk does with the entry at `index` of a listing.
#[derive(Clone, Debug)]
pub enum Step {
    /// Render the recognized file into `page` in the destination directory.
    Render { index: usize, page: String },
    /// Copy the file under its own name.
    Copy { index: usize },
    /// Create the directory of the same name in the destination, then walk it.
    Descend { index: usize },
    /// The entry's name cannot be represented: warn and go on.
    Skip { index: usize },
    /// Neither file nor directory: nothing to do.
    Ignore { index: usize },
}

impl Step {
    /// The listing index that this step is about.
    pub open spec fn index_of(self) -> usize {
        match self {
            Step::Render { index, .. } => index,
            Step::Copy { index } => index,
            Step::Descend { index } => index,
            Step::Skip { index } => index,
            Step::Ignore { index } => index,
        }
    }
}

/// `st` is the step that the walk takes for entry `e` at listing index `i`.
pub open spec fn is_step_for(e: Entry, i: int, st: Step) -> bool {
    &&& st.index_of() == i
    &&& match e.kind {
        EntryKind::File => if is_markup_name(e.name@) {
            if e.exact_name {
                st matches Step::Render { page, .. } && page@ == page_name(e.name@)
            } else {
                st is Skip
            }
        } else {
            st is Copy
        },
        EntryKind::Dir => if e.exact_name {
            st is Descend
        } else {
            st is Skip
        },
        EntryKind::Other => st is Ignore,
    }
}

/// The name an entry gets in the destination directory, if the walk writes one.
pub open spec fn destination(e: Entry) -> Option<Seq<char>> {
    match e.kind {
        EntryKind::File => if !is_markup_name(e.name@) {
            Some(e.name@)
        } else if e.exact_name {
            Some(page_name(e.name@))
        } else {
            None
        },
        EntryKind::Dir => if e.exact_name {
            Some(e.name@)
        } else {
            None
        },
        EntryKind::Other => None,
    }
}

/// What one pass over a listing leaves under each destination name: the
/// entry processed last among those that map to that name.
pub open spec fn outputs(es: Seq<Entry>) -> Map<Seq<char>, Entry>
    decreases es.len(),
{
    if es.len() == 0 {
        Map::empty()
    } else {
        let before = outputs(es.drop_last());
        match destination(es.last()) {
            Some(d) => before.insert(d, es.last()),
            None => before,
        }
    }
}

/// The destination directory after a pass, starting from what it held.
pub open spec fn after_pass(dest: Map<Seq<char>, Entry>, es: Seq<Entry>) -> Map<
    Seq<char>,
    Entry,
> {
    dest.union_prefer_right(outputs(es))
}

/// No two entries of the listing map to the same destination name.
pub open spec fn no_collisions(es: Seq<Entry>) -> bool {
    forall|i: int, j: int|
        0 <= i < es.len() && 0 <= j < es.len() && i != j && destination(es[i]) is Some
            ==> destination(es[i]) != destination(es[j])
}

/// A pass writes exactly the destination names of the listing's entries.
proof fn lemma_outputs_names(es: Seq<Entry>, d: Seq<char>)
    ensures
        outputs(es).contains_key(d) <==> exists|i: int|
            0 <= i < es.len() && destination(#[trigger] es[i]) == Some(d),
    decreases es.len(),
{
    if es.len() > 0 {
        let init = es.drop_last();
        let n = es.len() - 1;
        lemma_outputs_names(init, d);
        if outputs(es).contains_key(d) && destination(es[n]) != Some(d) {
            let i = choose|i: int| 0 <= i < init.len() && destination(#[trigger] init[i]) == Some(d);
            assert(es[i] == init[i]);
        }
        if exists|i: int| 0 <= i < es.len() && destination(#[trigger] es[i]) == Some(d) {
            let i = choose|i: int| 0 <= i < es.len() && destination(#[trigger] es[i]) == Some(d);
            if i < n {
                assert(init[i] == es[i]);
            }
        }
    }
}

/// Under a name that no later entry writes again stands the entry that wrote it.
proof fn lemma_outputs_entry(es: Seq<Entry>, i: int)
    requires
        0 <= i < es.len(),
        destination(es[i]) is Some,
        forall|j: int| i < j < es.len() ==> destination(#[trigger] es[j]) != destination(es[i]),
    ensures
        outputs(es)[destination(es[i])->0] == es[i],
    decreases es.len(),
{
    let n = es.len() - 1;
    if i < n {
        let init = es.drop_last();
        assert(init[i] == es[i]);
        assert(destination(es[n]) != destination(es[i]));
        assert forall|j: int| i < j < init.len() implies destination(#[trigger] init[j])
            != destination(init[i]) by {
            assert(init[j] == es[j]);
        }
        lemma_outputs_entry(init, i);
    }
}

/// A pass is idempotent: running it a second time over the same listing
/// leaves the destination exactly as the first run left it.
pub proof fn lemma_pass_idempotent(dest: Map<Seq<char>, Entry>, es: Seq<Entry>)
    ensures
        after_pass(after_pass(dest, es), es) == after_pass(dest, es),
{
    assert(after_pass(after_pass(dest, es), es) =~= after_pass(dest, es));
}

/// The order in which a directory lists its entries does not change what a
/// pass leaves in the destination, as long as no two entries map to the same
/// destination name. `b` is `a` reordered: `b[i] == a[p[i]]`, and `q` undoes `p`.
pub proof fn lemma_order_independent(a: Seq<Entry>, b: Seq<Entry>, p: Seq<int>, q: Seq<int>)
    requires
        b.len() == a.len(),
        p.len() == a.len(),
        q.len() == a.len(),
        forall|i: int| 0 <= i < a.len() ==> 0 <= #[trigger] p[i] < a.len() && b[i] == a[p[i]],
        forall|i: int| 0 <= i < a.len() ==> 0 <= #[trigger] q[i] < a.len() && p[q[i]] == i,
        forall|i: int| 0 <= i < a.len() ==> q[#[trigger] p[i]] == i,
        no_collisions(a),
    ensures
        outputs(a) == outputs(b),
{
    assert(no_collisions(b)) by {
        assert forall|i: int, j: int|
            0 <= i < b.len() && 0 <= j < b.len() && i != j && destination(b[i]) is Some
                implies destination(b[i]) != destination(b[j]) by {
            assert(q[p[i]] == i && q[p[j]] == j);
            assert(a[p[i]] == b[i] && a[p[j]] == b[j]);
        }
    }
    assert forall|d: Seq<char>| outputs(a).contains_key(d) <==> outputs(b).contains_key(d) by {
        lemma_outputs_names(a, d);
        lemma_outputs_names(b, d);
        if outputs(a).contains_key(d) {
            let j = choose|j: int| 0 <= j < a.len() && destination(#[trigger] a[j]) == Some(d);
            assert(b[q[j]] == a[j]);
        }
        if outputs(b).contains_key(d) {
            let i = choose|i: int| 0 <= i < b.len() && destination(#[trigger] b[i]) == Some(d);
            assert(b[i] == a[p[i]]);
        }
    }
    assert forall|d: Seq<char>| #[trigger] outputs(a).contains_key(d) implies outputs(a)[d]
        == outputs(b)[d] by {
        lemma_outputs_names(a, d);
        let j = choose|j: int| 0 <= j < a.len() && destination(#[trigger] a[j]) == Some(d);
        let i = q[j];
        assert(b[i] == a[j]);
        lemma_outputs_entry(a, j);
        lemma_outputs_entry(b, i);
    }
    assert(outputs(a) =~= outputs(b));
}

/// The step for the entry at `index`; it depends on that entry alone.
pub fn step_for(e: &Entry, index: usize) -> (r: Step)
    ensures
        is_step_for(*e, index as int, r),
{
    match e.kind {
        EntryKind::File => {
            if is_markup_file_name(e.name.as_str()) {
                if e.exact_name {
                    Step::Render { index, page: page_file_name(e.name.as_str()) }
                } else {
                    Step::Skip { index }
                }
            } else {
                Step::Copy { index }
            }
        },
        EntryKind::Dir => {
            if e.exact_name {
                Step::Descend { index }
            } else {
                Step::Skip { index }
            }
        },
        EntryKind::Other => Step::Ignore { index },
    }
}

/// The steps for a whole listing, one per entry, in listing order.
pub fn plan_directory(entries: &Vec<Entry>) -> (r: Vec<Step>)
    ensures
        r@.len() == entries@.len(),
        forall|i: int| 0 <= i < entries@.len() ==> is_step_for(entries@[i], i, #[trigger] r@[i]),
{
    let mut steps: Vec<Step> = Vec::new();
    let mut i: usize = 0;
    while i < entries.len()
        invariant
            i <= entries@.len(),
            steps@.len() == i,
            forall|k: int| 0 <= k < i ==> is_step_for(entries@[k], k, #[trigger] steps@[k]),
        decreases entries.len() - i,
    {
        let st = step_for(&entries[i], i);
        steps.push(st);
        i += 1;
    }
    steps
}

} // verus!
