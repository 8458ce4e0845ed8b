use vstd::prelude::*;
use vstd::string::*;

use crate::ast::{pieces_list, views, Fragment, Markup, Piece, PieceView};
use crate::escape::{escape_html, escape_to_string};
use crate::interpret::render_pieces;
use crate::runtime::{flatten, n_dynamic};

verus! {

/// One step of a statically generated rendering routine.
pub enum Op {
    /// Append this text, already escaped.
    Literal { text: String },
    /// Evaluate the fragment, render it and append the result.
    Eval { fragment: Fragment },
    /// Bring a binding into scope for the steps after it.
    Let { tokens: String },
}

pub open spec fn n_evals(ops: Seq<Op>) -> nat
    decreases ops.len(),
{
    if ops.len() == 0 {
        0
    } else {
        n_evals(ops.drop_last()) + if ops.last() is Eval { 1nat } else { 0nat }
    }
}

/// The output of `ops` where the `k`-th evaluation renders as `vals(k)`.
pub open spec fn render_ops(ops: Seq<Op>, vals: spec_fn(nat) -> Seq<char>) -> Seq<char>
    decreases ops.len(),
{
    if ops.len() == 0 {
        Seq::empty()
    } else {
        render_ops(ops.drop_last(), vals) + match ops.last() {
            Op::Literal { text } => text@,
            Op::Eval { .. } => vals(n_evals(ops.drop_last())),
            Op::Let { .. } => Seq::empty(),
        }
    }
}

/// The evaluations and bindings of `ops`, in order, as pieces.
pub open spec fn actions(ops: Seq<Op>) -> Seq<PieceView>
    decreases ops.len(),
{
    if ops.len() == 0 {
        Seq::empty()
    } else {
        actions(ops.drop_last()) + match ops.last() {
            Op::Literal { .. } => Seq::empty(),
            Op::Eval { fragment } => seq![PieceView::Dynamic { fragment }],
            Op::Let { tokens } => seq![PieceView::Binding { tokens }],
        }
    }
}

/// The dynamic pieces and bindings of `ps`, in order.
pub open spec fn actions_of(ps: Seq<PieceView>) -> Seq<PieceView>
    decreases ps.len(),
{
    if ps.len() == 0 {
        Seq::empty()
    } else {
        actions_of(ps.drop_last()) + match ps.last() {
            PieceView::Dynamic { .. } => seq![ps.last()],
            PieceView::Binding { .. } => seq![ps.last()],
            _ => Seq::empty(),
        }
    }
}

/// No literal is empty, and no two literals are next to each other.
pub open spec fn merged(ops: Seq<Op>) -> bool
    decreases ops.len(),
{
    ops.len() == 0 || (merged(ops.drop_last()) && (ops.last() is Literal ==> (
    ops.last()->text@.len() > 0 && (ops.len() == 1 || !(ops.drop_last().last() is Literal)))))
}

/// `ops` with the pending literal, if any, appended.
pub open spec fn with_pending(ops: Seq<Op>, pending: String) -> Seq<Op> {
    if pending@.len() == 0 {
        ops
    } else {
        ops.push(Op::Literal { text: pending })
    }
}

/// The rendering steps of `pieces`: adjacent text merged into one literal,
/// each dynamic piece an evaluation, each binding a `let`.
pub fn generate_ops(pieces: Vec<Piece>) -> (r: Vec<Op>)
    ensures
        forall|vals: spec_fn(nat) -> Seq<char>|
            render_ops(r@, vals) == render_pieces(views(pieces@), vals),
        n_evals(r@) == n_dynamic(views(pieces@)),
        actions(r@) == actions_of(views(pieces@)),
        merged(r@),
{
    let ghost all = views(pieces@);
    let mut rest = pieces;
    let mut ops: Vec<Op> = Vec::new();
    let mut pending = String::new();
    let ghost k: int = 0;
    proof {
        assert(rest@.len() == all.len());
        assert(views(rest@) =~= all.subrange(0, all.len() as int));
    }
    while rest.len() > 0
        invariant
            0 <= k <= all.len(),
            views(rest@) == all.subrange(k, all.len() as int),
            forall|vals: spec_fn(nat) -> Seq<char>|
                render_ops(with_pending(ops@, pending), vals) == render_pieces(
                    #[trigger] all.subrange(0, k),
                    vals,
                ),
            n_evals(ops@) == n_dynamic(all.subrange(0, k)),
            actions(ops@) == actions_of(all.subrange(0, k)),
            merged(ops@),
            ops@.len() == 0 || !(ops@.last() is Literal),
        decreases rest.len(),
    {
        let ghost before = rest@;
        let ghost ops0 = ops@;
        let ghost pend0 = pending;
        let p = rest.remove(0);
        proof {
            assert(views(before)[0] == p@);
            assert(views(before).len() == before.len());
            assert(views(rest@) =~= views(before).subrange(1, before.len() as int));
        }
        let ghost pre = all.subrange(0, k);
        let ghost next = all.subrange(0, k + 1);
        proof {
            assert(all.subrange(k, all.len() as int)[0] == all[k]);
            assert(next.drop_last() =~= pre);
            assert(next.last() == p@);
            assert(views(rest@) =~= all.subrange(k + 1, all.len() as int));
        }
        match p {
            Piece::Raw { text } => {
                pending.append(text.as_str());
                proof {
                    lemma_text_step(ops@, pend0, pending, pre, next);
                }
            },
            Piece::Text { text } => {
                escape_to_string(text.as_str(), &mut pending);
                proof {
                    lemma_text_step(ops@, pend0, pending, pre, next);
                }
            },
            Piece::Dynamic { fragment } => {
                flush(&mut ops, &mut pending);
                let op = Op::Eval { fragment };
                proof {
                    lemma_with_pending(ops0, pend0);
                    lemma_append_pending_merged(ops0, pend0);
                    lemma_action_step(ops@, op, pre, next);
                }
                ops.push(op);
            },
            Piece::Binding { tokens } => {
                flush(&mut ops, &mut pending);
                let op = Op::Let { tokens };
                proof {
                    lemma_with_pending(ops0, pend0);
                    lemma_append_pending_merged(ops0, pend0);
                    lemma_action_step(ops@, op, pre, next);
                }
                ops.push(op);
            },
        }
        proof {
            k = k + 1;
        }
    }
    let ghost ops0 = ops@;
    let ghost pend0 = pending;
    flush(&mut ops, &mut pending);
    proof {
        lemma_with_pending(ops0, pend0);
        lemma_append_pending_merged(ops0, pend0);
        assert(all.subrange(0, k) =~= all);
    }
    ops
}

/// Moves the pending literal, if any, onto `ops`.
fn flush(ops: &mut Vec<Op>, pending: &mut String)
    ensures
        final(ops)@ == with_pending(old(ops)@, *old(pending)),
        final(pending)@.len() == 0,
{
    if pending.unicode_len() > 0 {
        let mut text = String::new();
        core::mem::swap(pending, &mut text);
        ops.push(Op::Literal { text });
    }
}

proof fn lemma_with_pending(ops: Seq<Op>, p: String)
    ensures
        n_evals(with_pending(ops, p)) == n_evals(ops),
        actions(with_pending(ops, p)) == actions(ops),
{
    if p@.len() > 0 {
        assert(with_pending(ops, p).drop_last() == ops);
    }
}

proof fn lemma_text_step(
    ops: Seq<Op>,
    p0: String,
    p1: String,
    pre: Seq<PieceView>,
    next: Seq<PieceView>,
)
    requires
        next.len() > 0,
        next.drop_last() == pre,
        next.last() is Raw ==> p1@ == p0@ + next.last()->Raw_text,
        next.last() is Text ==> p1@ == p0@ + escape_html(next.last()->Text_text),
        next.last() is Raw || next.last() is Text,
        forall|vals: spec_fn(nat) -> Seq<char>|
            render_ops(with_pending(ops, p0), vals) == #[trigger] render_pieces(pre, vals),
        n_evals(ops) == n_dynamic(pre),
        actions(ops) == actions_of(pre),
    ensures
        forall|vals: spec_fn(nat) -> Seq<char>|
            render_ops(with_pending(ops, p1), vals) == #[trigger] render_pieces(next, vals),
        n_evals(ops) == n_dynamic(next),
        actions(ops) == actions_of(next),
{
    let x = p1@.subrange(p0@.len() as int, p1@.len() as int);
    assert(p1@ =~= p0@ + x);
    assert forall|vals: spec_fn(nat) -> Seq<char>|
        render_ops(with_pending(ops, p1), vals) == #[trigger] render_pieces(next, vals) by {
        lemma_append_pending(ops, p0, p1, x, vals);
        assert(render_pieces(next, vals) =~= render_pieces(pre, vals) + x);
    }
    assert(actions_of(next) =~= actions_of(pre));
}

proof fn lemma_action_step(ops: Seq<Op>, op: Op, pre: Seq<PieceView>, next: Seq<PieceView>)
    requires
        next.len() > 0,
        next.drop_last() == pre,
        next.last() is Dynamic ==> op == (Op::Eval { fragment: next.last()->Dynamic_fragment }),
        next.last() is Binding ==> op == (Op::Let { tokens: next.last()->Binding_tokens }),
        next.last() is Dynamic || next.last() is Binding,
        forall|vals: spec_fn(nat) -> Seq<char>| render_ops(ops, vals) == #[trigger] render_pieces(pre, vals),
        n_evals(ops) == n_dynamic(pre),
        actions(ops) == actions_of(pre),
        merged(ops),
    ensures
        !(ops.push(op).last() is Literal),
        forall|vals: spec_fn(nat) -> Seq<char>|
            render_ops(ops.push(op), vals) == #[trigger] render_pieces(next, vals),
        n_evals(ops.push(op)) == n_dynamic(next),
        actions(ops.push(op)) == actions_of(next),
        merged(ops.push(op)),
{
    let e = ops.push(op);
    assert(e.drop_last() == ops);
    assert(actions(e) =~= actions_of(next));
    assert forall|vals: spec_fn(nat) -> Seq<char>|
        render_ops(e, vals) == #[trigger] render_pieces(next, vals) by {
        assert(render_pieces(next.drop_last(), vals) == render_ops(ops, vals));
        if next.last() is Dynamic {
            assert(render_ops(e, vals) == render_ops(ops, vals) + vals(n_evals(ops)));
        } else {
            assert(render_ops(e, vals) =~= render_ops(ops, vals));
        }
    }
}

proof fn lemma_append_pending(
    ops: Seq<Op>,
    p0: String,
    p1: String,
    x: Seq<char>,
    vals: spec_fn(nat) -> Seq<char>,
)
    requires
        p1@ == p0@ + x,
    ensures
        render_ops(with_pending(ops, p1), vals) == render_ops(with_pending(ops, p0), vals) + x,
{
    let e1 = with_pending(ops, p1);
    if p0@.len() == 0 {
        assert(p1@ =~= x);
        if p1@.len() > 0 {
            assert(e1.drop_last() == ops);
        } else {
            assert(x =~= Seq::<char>::empty());
        }
    } else {
        assert(e1.drop_last() == ops);
        assert(with_pending(ops, p0).drop_last() == ops);
    }
}

proof fn lemma_append_pending_merged(ops: Seq<Op>, p: String)
    requires
        merged(ops),
        ops.len() == 0 || !(ops.last() is Literal),
    ensures
        merged(with_pending(ops, p)),
{
    if p@.len() > 0 {
        assert(ops.push(Op::Literal { text: p }).drop_last() == ops);
    }
}

/// `ops` are the static rendering steps of `ps`: they render as `ps` does for
/// every choice of values, evaluate its dynamic pieces and bring its bindings
/// into scope in order, and hold no empty or adjacent literals.
pub open spec fn steps_of(ops: Seq<Op>, ps: Seq<PieceView>) -> bool {
    &&& forall|vals: spec_fn(nat) -> Seq<char>| render_ops(ops, vals) == render_pieces(ps, vals)
    &&& n_evals(ops) == n_dynamic(ps)
    &&& actions(ops) == actions_of(ps)
    &&& merged(ops)
}

/// Static generation of a template: its rendering steps, and the capacity to
/// reserve for the output, as given by the caller.
pub struct Expansion {
    pub capacity: usize,
    pub ops: Vec<Op>,
}

/// The static rendering routine of `markups`, reserving `size_hint` for the
/// output.
pub fn expand_from_parsed(markups: Vec<Markup>, size_hint: usize) -> (r: Expansion)
    ensures
        r.capacity == size_hint,
        forall|vals: spec_fn(nat) -> Seq<char>|
            render_ops(r.ops@, vals) == render_pieces(pieces_list(markups@), vals),
        n_evals(r.ops@) == n_dynamic(pieces_list(markups@)),
        actions(r.ops@) == actions_of(pieces_list(markups@)),
        merged(r.ops@),
{
    let pieces = flatten(markups);
    Expansion { capacity: size_hint, ops: generate_ops(pieces) }
}

/// The static rendering routine of a template whose source text is `input`
/// and whose parse is `markups`; it reserves as many bytes as the source holds,
/// since the size of the output tends to follow the size of the template.
pub fn expand(input: &str, markups: Vec<Markup>) -> (r: Expansion)
    ensures
        r.capacity == input.spec_bytes().len() as usize,
        forall|vals: spec_fn(nat) -> Seq<char>|
            render_ops(r.ops@, vals) == render_pieces(pieces_list(markups@), vals),
        n_evals(r.ops@) == n_dynamic(pieces_list(markups@)),
        actions(r.ops@) == actions_of(pieces_list(markups@)),
        merged(r.ops@),
{
    let size_hint = input.len();
    expand_from_parsed(markups, size_hint)
}

/// The `k`-th of `values`, as a function of `k`.
pub open spec fn values_fn(values: Seq<String>) -> spec_fn(nat) -> Seq<char> {
    |k: nat| values[k as int]@
}

/// Runs `ops` with `values[k]` as the rendering of the `k`-th evaluation.
pub fn render_static(ops: &Vec<Op>, values: &Vec<String>) -> (r: String)
    requires
        values@.len() >= n_evals(ops@),
    ensures
        r@ == render_ops(ops@, values_fn(values@)),
{
    let ghost vals = values_fn(values@);
    let mut out = String::new();
    let mut count: usize = 0;
    let mut i: usize = 0;
    let nv = values.len();
    while i < ops.len()
        invariant
            nv == values@.len(),
            i <= ops@.len(),
            values@.len() >= n_evals(ops@),
            count == n_evals(ops@.subrange(0, i as int)),
            n_evals(ops@.subrange(0, i as int)) <= n_evals(ops@),
            out@ == render_ops(ops@.subrange(0, i as int), vals),
            vals == values_fn(values@),
        decreases ops.len() - i,
    {
        let ghost next = ops@.subrange(0, i + 1);
        proof {
            assert(next.drop_last() =~= ops@.subrange(0, i as int));
            lemma_n_evals_prefix(ops@, i + 1);
        }
        match &ops[i] {
            Op::Literal { text } => {
                out.append(text.as_str());
            },
            Op::Eval { .. } => {
                out.append(values[count].as_str());
                count = count + 1;
            },
            Op::Let { .. } => {},
        }
        proof {
            assert(out@ =~= render_ops(next, vals));
        }
        i = i + 1;
    }
    proof {
        assert(ops@.subrange(0, i as int) =~= ops@);
    }
    out
}

proof fn lemma_n_evals_prefix(ops: Seq<Op>, j: int)
    requires
        0 <= j <= ops.len(),
    ensures
        n_evals(ops.subrange(0, j)) <= n_evals(ops),
    decreases ops.len() - j,
{
    if j < ops.len() {
        lemma_n_evals_prefix(ops, j + 1);
        assert(ops.subrange(0, j + 1).drop_last() =~= ops.subrange(0, j));
    } else {
        assert(ops.subrange(0, j) =~= ops);
    }
}

} // verus!
