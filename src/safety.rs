//! The check that a rewritten text keeps every line of the original.
use vstd::prelude::*;
use crate::text::{kept_in_order, text_lines};

verus! {

/// How a line of a diff relates the two texts.
#[derive(PartialEq, Eq, Structural, Clone, Copy, Debug)]
pub enum DiffTag {
    Added,
    Removed,
    Unchanged,
}

/// One line of a diff, with its terminating newline.
pub struct DiffEntry {
    pub tag: DiffTag,
    pub text: String,
}

impl View for DiffEntry {
    type V = (DiffTag, Seq<char>);

    open spec fn view(&self) -> (DiffTag, Seq<char>) {
        (self.tag, self.text@)
    }
}

/// A rewrite that would lose a line of the original; `line` is that line.
pub struct DestructiveEditError {
    pub line: String,
}

/// The lines of the patch that diffy writes from `original` to `modified`.
pub uninterp spec fn line_diff(original: Seq<char>, modified: Seq<char>) -> Seq<(DiffTag, Seq<char>)>;

pub open spec fn has_removal(d: Seq<(DiffTag, Seq<char>)>) -> bool {
    exists|i: int| 0 <= i < d.len() && (#[trigger] d[i]).0 == DiffTag::Removed
}

/// The index of the first removed line of `d`, where there is one.
pub open spec fn is_first_removal(d: Seq<(DiffTag, Seq<char>)>, i: int) -> bool {
    0 <= i < d.len() && d[i].0 == DiffTag::Removed && forall|j: int|
        0 <= j < i ==> (#[trigger] d[j]).0 != DiffTag::Removed
}

/// Relies on diffy::create_patch, Patch::hunks and Hunk::lines: the lines of
/// the patch's hunks, in order, each as the patch tags it. The hunks come from
/// an edit script over the two texts' lines and the lines between hunks are
/// equal in both, so a patch that deletes no line leaves every line of the
/// original in the modified text, in order; a deleted line is a line of the
/// original.
#[verifier::external_body]
fn patch_entries(original: &str, modified: &str) -> (r: Vec<DiffEntry>)
    ensures
        r@.map_values(|e: DiffEntry| e@) == line_diff(original@, modified@),
        !has_removal(r@.map_values(|e: DiffEntry| e@)) ==> kept_in_order(
            text_lines(original@),
            text_lines(modified@),
        ),
        forall|i: int|
            0 <= i < r@.len() && (#[trigger] r@[i]).tag == DiffTag::Removed ==> text_lines(
                original@,
            ).contains(r@[i].text@),
{
    diffy::create_patch(original, modified).hunks().iter().flat_map(|h| h.lines().iter()).map(
        |l| match l {
            diffy::Line::Context(s) => DiffEntry { tag: DiffTag::Unchanged, text: s.to_string() },
            diffy::Line::Delete(s) => DiffEntry { tag: DiffTag::Removed, text: s.to_string() },
            diffy::Line::Insert(s) => DiffEntry { tag: DiffTag::Added, text: s.to_string() },
        },
    ).collect()
}

/// Accepts a diff with no removed line; else reports the first removed line.
pub fn check_diff(entries: &Vec<DiffEntry>) -> (r: Result<(), DestructiveEditError>)
    ensures
        r is Ok <==> !has_removal(entries@.map_values(|e: DiffEntry| e@)),
        r matches Err(e) ==> exists|i: int|
            is_first_removal(entries@.map_values(|e: DiffEntry| e@), i) && e.line@
                == entries@[i].text@,
{
    let ghost d = entries@.map_values(|e: DiffEntry| e@);
    let mut i: usize = 0;
    while i < entries.len()
        invariant
            i <= entries.len(),
            d == entries@.map_values(|e: DiffEntry| e@),
            forall|j: int| 0 <= j < i ==> (#[trigger] d[j]).0 != DiffTag::Removed,
        decreases entries.len() - i,
    {
        if entries[i].tag == DiffTag::Removed {
            assert(d[i as int].0 == DiffTag::Removed);
            return Err(DestructiveEditError { line: entries[i].text.clone() });
        }
        i = i + 1;
    }
    Ok(())
}

/// Accepts `rewritten` only where its diff against `original` removes no line.
pub fn verify_insertions(original: &String, rewritten: &String) -> (r: Result<(), DestructiveEditError>)
    ensures
        r is Ok <==> !has_removal(line_diff(original@, rewritten@)),
        r is Ok ==> kept_in_order(text_lines(original@), text_lines(rewritten@)),
        !kept_in_order(text_lines(original@), text_lines(rewritten@)) ==> r is Err,
        r matches Err(e) ==> text_lines(original@).contains(e.line@),
{
    let entries = patch_entries(original.as_str(), rewritten.as_str());
    let r = check_diff(&entries);
    proof {
        if r is Err {
            let e = r->Err_0;
            let i = choose|i: int|
                is_first_removal(entries@.map_values(|e: DiffEntry| e@), i) && e.line@
                    == entries@[i].text@;
            assert(entries@.map_values(|e: DiffEntry| e@)[i].0 == entries@[i].tag);
        }
    }
    r
}

proof fn lemma_kept_in_order_len(a: Seq<Seq<char>>, b: Seq<Seq<char>>)
    requires
        kept_in_order(a, b),
    ensures
        a.len() <= b.len(),
    decreases b.len(),
{
    if a.len() > 0 && b.len() > 0 {
        if a[0] == b[0] {
            lemma_kept_in_order_len(a.drop_first(), b.drop_first());
        } else {
            lemma_kept_in_order_len(a, b.drop_first());
        }
    }
}

/// A rewritten text whose lines are those of the original with one of them
/// left out does not keep the original's lines, so `verify_insertions`
/// rejects it.
pub proof fn lemma_omitted_line_rejected(original: Seq<char>, rewritten: Seq<char>, k: int)
    requires
        0 <= k < text_lines(original).len(),
        text_lines(rewritten) == text_lines(original).remove(k),
    ensures
        !kept_in_order(text_lines(original), text_lines(rewritten)),
{
    if kept_in_order(text_lines(original), text_lines(rewritten)) {
        lemma_kept_in_order_len(text_lines(original), text_lines(rewritten));
    }
}

} // verus!
