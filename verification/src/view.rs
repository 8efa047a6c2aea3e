//! Mathematical models of the tree types: every contract in this crate is
//! stated over these, with `Seq<char>` in place of `String`.

use vstd::prelude::*;

use crate::tree::ErrTree;
use crate::tree::TraceFrame;

verus! {

/// Model of one contextual frame: identifier, target, name, fields, and the
/// optional `(file, line)` recording site.
pub struct FrameView {
    pub identifier: Seq<char>,
    pub target: Seq<char>,
    pub name: Seq<char>,
    pub fields: Seq<char>,
    pub location: Option<(Seq<char>, u64)>,
}

/// Model of one error node with its causal children.
pub struct TreeView {
    pub msg: Seq<char>,
    pub location: Option<Seq<char>>,
    pub trace: Seq<FrameView>,
    pub sources: Seq<TreeView>,
}

pub open spec fn view_frame(f: TraceFrame) -> FrameView {
    FrameView {
        identifier: f.identifier@,
        target: f.target@,
        name: f.name@,
        fields: f.fields@,
        location: match f.location {
            Some(l) => Some((l.file@, l.line)),
            None => None,
        },
    }
}

pub open spec fn view_frames(s: Seq<TraceFrame>) -> Seq<FrameView> {
    Seq::new(s.len(), |i: int| view_frame(s[i]))
}

pub open spec fn view_tree(t: ErrTree) -> TreeView
    decreases t,
{
    TreeView {
        msg: t.msg@,
        location: match t.location {
            Some(l) => Some(l@),
            None => None,
        },
        trace: view_frames(t.trace@),
        sources: view_trees(t.sources@),
    }
}

pub open spec fn view_trees(s: Seq<ErrTree>) -> Seq<TreeView>
    decreases s,
{
    if s.len() == 0 {
        Seq::empty()
    } else {
        seq![view_tree(s[0])] + view_trees(s.drop_first())
    }
}

/// Viewing a sequence of trees views each tree in place.
pub proof fn lemma_view_trees(s: Seq<ErrTree>)
    ensures
        view_trees(s).len() == s.len(),
        forall|i: int| 0 <= i < s.len() ==> view_trees(s)[i] == view_tree(s[i]),
    decreases s,
{
    if s.len() > 0 {
        lemma_view_trees(s.drop_first());
        assert forall|i: int| 0 <= i < s.len() implies view_trees(s)[i] == view_tree(s[i]) by {
            if i > 0 {
                assert(s.drop_first()[i - 1] == s[i]);
                assert(view_trees(s)[i] == view_trees(s.drop_first())[i - 1]);
            }
        }
    }
}

/// Viewing distributes over appending one tree.
pub proof fn lemma_view_trees_snoc(s: Seq<ErrTree>, t: ErrTree)
    ensures
        view_trees(s.push(t)) == view_trees(s).push(view_tree(t)),
{
    lemma_view_trees(s.push(t));
    lemma_view_trees(s);
    assert(s.push(t)[s.len() as int] == t);
    assert(forall|i: int| 0 <= i < s.len() ==> s.push(t)[i] == s[i]);
    assert(view_trees(s.push(t)) =~= view_trees(s).push(view_tree(t)));
}

} // verus!
