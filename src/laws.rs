use vstd::prelude::*;

use crate::ast::{pieces, pieces_list, Markup, PieceView};
use crate::generate::actions_of;
use crate::interpret::{covers, render_pieces, value_of};
use crate::escape::{escape_format, escape_html};
use crate::recover::{
    body_start, find_from, find_line, is_closer, is_opener, line_index, lines_text, occurs_at,
    has_content, recovered, scan, stream,
};
use crate::runtime::{format_of, n_dynamic, placeholder, stmts_of, Stmt};

verus! {

/// A template without dynamic pieces renders to one text whatever the
/// values: the static rendering (under any evaluation) and the interpreter's
/// (under any var map, which then always covers it) are the same.
pub proof fn lemma_static_matches_runtime_without_dynamic(
    markups: Seq<Markup>,
    vals: spec_fn(nat) -> Seq<char>,
    vars: Map<usize, String>,
)
    requires
        n_dynamic(pieces_list(markups)) == 0,
    ensures
        covers(vars, n_dynamic(pieces_list(markups))),
        render_pieces(pieces_list(markups), vals) == render_pieces(
            pieces_list(markups),
            value_of(vars),
        ),
{
    lemma_render_without_dynamic(pieces_list(markups), vals, value_of(vars));
}

proof fn lemma_render_without_dynamic(
    ps: Seq<PieceView>,
    f: spec_fn(nat) -> Seq<char>,
    g: spec_fn(nat) -> Seq<char>,
)
    requires
        n_dynamic(ps) == 0,
    ensures
        render_pieces(ps, f) == render_pieces(ps, g),
    decreases ps.len(),
{
    if ps.len() > 0 {
        lemma_render_without_dynamic(ps.drop_last(), f, g);
    }
}

/// The var-ids of the inserts among `stmts`, in order.
pub open spec fn insert_ids(stmts: Seq<Stmt>) -> Seq<nat>
    decreases stmts.len(),
{
    if stmts.len() == 0 {
        Seq::empty()
    } else {
        insert_ids(stmts.drop_last()) + match stmts.last() {
            Stmt::Insert { var_id, .. } => seq![var_id as nat],
            Stmt::Let { .. } => Seq::empty(),
        }
    }
}

/// The inserts of a template with N dynamic pieces carry the var-ids
/// `0, 1, ..., N-1`, in left-to-right, depth-first order.
pub proof fn lemma_var_ids_in_order(ps: Seq<PieceView>)
    requires
        n_dynamic(ps) <= usize::MAX,
    ensures
        insert_ids(stmts_of(ps, true)) == Seq::new(n_dynamic(ps), |i: int| i as nat),
    decreases ps.len(),
{
    if ps.len() > 0 {
        let p = ps.drop_last();
        assert(n_dynamic(p) <= n_dynamic(ps));
        lemma_var_ids_in_order(p);
        let s = stmts_of(ps, true);
        if ps.last() is Dynamic || ps.last() is Binding {
            assert(s.drop_last() == stmts_of(p, true));
        } else {
            assert(s == stmts_of(p, true));
        }
        assert(insert_ids(s) =~= Seq::new(n_dynamic(ps), |i: int| i as nat));
    } else {
        assert(insert_ids(stmts_of(ps, true)) =~= Seq::new(n_dynamic(ps), |i: int| i as nat));
    }
}

proof fn lemma_pieces_list_append(a: Seq<Markup>, b: Seq<Markup>)
    ensures
        pieces_list(a + b) == pieces_list(a) + pieces_list(b),
    decreases b.len(),
{
    if b.len() == 0 {
        assert(a + b =~= a);
        assert(pieces_list(a) + pieces_list(b) =~= pieces_list(a));
    } else {
        lemma_pieces_list_append(a, b.drop_last());
        assert((a + b).drop_last() =~= a + b.drop_last());
        assert(pieces_list(a + b) =~= pieces_list(a) + pieces_list(b));
    }
}

proof fn lemma_actions_append(a: Seq<PieceView>, b: Seq<PieceView>)
    ensures
        actions_of(a + b) == actions_of(a) + actions_of(b),
    decreases b.len(),
{
    if b.len() == 0 {
        assert(a + b =~= a);
        assert(actions_of(a) + actions_of(b) =~= actions_of(a));
    } else {
        lemma_actions_append(a, b.drop_last());
        assert((a + b).drop_last() =~= a + b.drop_last());
        assert(actions_of(a + b) =~= actions_of(a) + actions_of(b));
    }
}

/// The statements of a template follow from its dynamic pieces and
/// bindings alone.
pub proof fn lemma_stmts_from_actions(ps: Seq<PieceView>, record: bool)
    ensures
        stmts_of(ps, record) == stmts_of(actions_of(ps), record),
        n_dynamic(ps) == n_dynamic(actions_of(ps)),
    decreases ps.len(),
{
    if ps.len() > 0 {
        let p = ps.drop_last();
        lemma_stmts_from_actions(p, record);
        let a = actions_of(ps);
        if ps.last() is Dynamic || ps.last() is Binding {
            assert(a.drop_last() == actions_of(p));
            assert(a.last() == ps.last());
        } else {
            assert(a == actions_of(p));
        }
    }
}

/// Literal text inserted anywhere among a template's markups leaves its
/// dynamic pieces, their var-ids, its bindings and the statements built
/// from them as they were.
pub proof fn lemma_var_ids_ignore_literals(
    markups: Seq<Markup>,
    i: int,
    literal: Markup,
    record: bool,
)
    requires
        0 <= i <= markups.len(),
        literal is Literal,
    ensures
        actions_of(pieces_list(markups.insert(i, literal))) == actions_of(pieces_list(markups)),
        n_dynamic(pieces_list(markups.insert(i, literal))) == n_dynamic(pieces_list(markups)),
        stmts_of(pieces_list(markups.insert(i, literal)), record) == stmts_of(
            pieces_list(markups),
            record,
        ),
{
    let a = markups.subrange(0, i);
    let b = markups.subrange(i, markups.len() as int);
    let l = seq![literal];
    assert(markups.insert(i, literal) =~= a + (l + b));
    assert(markups =~= a + b);
    lemma_pieces_list_append(a, l + b);
    lemma_pieces_list_append(l, b);
    lemma_pieces_list_append(a, b);
    assert(l.drop_last() =~= Seq::<Markup>::empty());
    assert(pieces_list(Seq::<Markup>::empty()) == Seq::<PieceView>::empty());
    assert(l.last() == literal);
    assert(pieces_list(l) =~= pieces(literal));
    let pa = pieces_list(a);
    let pl = pieces_list(l);
    let pb = pieces_list(b);
    lemma_actions_append(pa, pl + pb);
    lemma_actions_append(pl, pb);
    lemma_actions_append(pa, pb);
    assert(pl.drop_last() =~= Seq::<PieceView>::empty());
    assert(pl.len() == 1 && pl.last() is Text);
    assert(actions_of(Seq::<PieceView>::empty()) == Seq::<PieceView>::empty());
    assert(actions_of(pl) =~= Seq::<PieceView>::empty());
    assert(pa + (pl + pb) == pieces_list(markups.insert(i, literal)));
    assert(actions_of(pl + pb) =~= actions_of(pb));
    lemma_stmts_from_actions(pieces_list(markups.insert(i, literal)), record);
    lemma_stmts_from_actions(pieces_list(markups), record);
}

/// What a piece other than a dynamic one adds to the format template.
pub open spec fn fixed_format(p: PieceView) -> Seq<char> {
    match p {
        PieceView::Raw { text } => text,
        PieceView::Text { text } => escape_html(escape_format(text)),
        _ => Seq::empty(),
    }
}

/// The stretches of fixed format text before, between and after the dynamic
/// pieces of `ps`: one more than there are dynamic pieces.
pub open spec fn stretches(ps: Seq<PieceView>) -> Seq<Seq<char>>
    decreases ps.len(),
{
    if ps.len() == 0 {
        seq![Seq::empty()]
    } else {
        let st = stretches(ps.drop_last());
        if ps.last() is Dynamic {
            st.push(Seq::empty())
        } else {
            st.update(st.len() - 1, st.last() + fixed_format(ps.last()))
        }
    }
}

/// `st[0]`, then `{0}`, `st[1]`, `{1}`, ... up to the last stretch.
pub open spec fn join_placeholders(st: Seq<Seq<char>>) -> Seq<char>
    decreases st.len(),
{
    if st.len() <= 1 {
        if st.len() == 1 { st[0] } else { Seq::empty() }
    } else {
        join_placeholders(st.drop_last()) + placeholder((st.len() - 2) as nat) + st.last()
    }
}

proof fn lemma_join_extend_last(st: Seq<Seq<char>>, c: Seq<char>)
    requires
        st.len() >= 1,
    ensures
        join_placeholders(st.update(st.len() - 1, st.last() + c)) == join_placeholders(st) + c,
{
    let u = st.update(st.len() - 1, st.last() + c);
    if st.len() == 1 {
        assert(u[0] == st[0] + c);
    } else {
        assert(u.drop_last() =~= st.drop_last());
        assert(join_placeholders(u) =~= join_placeholders(st) + c);
    }
}

/// The format template of a template with N dynamic pieces holds the
/// placeholders `{0}`, `{1}`, ..., `{N-1}`, each once, in that order, with the
/// fixed text before, between and after them.
pub proof fn lemma_format_placeholders_in_order(ps: Seq<PieceView>)
    ensures
        stretches(ps).len() == n_dynamic(ps) + 1,
        format_of(ps) == join_placeholders(stretches(ps)),
    decreases ps.len(),
{
    if ps.len() == 0 {
        assert(join_placeholders(stretches(ps)) =~= Seq::<char>::empty());
    } else {
        let p = ps.drop_last();
        lemma_format_placeholders_in_order(p);
        let st = stretches(p);
        if ps.last() is Dynamic {
            let u = st.push(Seq::<char>::empty());
            assert(u.drop_last() =~= st);
            assert(join_placeholders(u) =~= format_of(ps));
        } else {
            lemma_join_extend_last(st, fixed_format(ps.last()));
            assert(format_of(ps) =~= format_of(p) + fixed_format(ps.last()));
        }
    }
}

/// True when reading `b` from bracket depth `d` never closes a bracket that
/// it did not open.
pub open spec fn never_below(b: Seq<char>, d: nat) -> bool
    decreases b.len(),
{
    if b.len() == 0 {
        true
    } else if is_opener(b[0]) {
        never_below(b.drop_first(), d + 1)
    } else if is_closer(b[0]) {
        d > 0 && never_below(b.drop_first(), (d - 1) as nat)
    } else {
        never_below(b.drop_first(), d)
    }
}

/// The bracket depth after reading `b` from depth `d`.
pub open spec fn depth_after(b: Seq<char>, d: nat) -> int
    decreases b.len(),
{
    if b.len() == 0 {
        d as int
    } else if is_opener(b[0]) {
        depth_after(b.drop_first(), d + 1)
    } else if is_closer(b[0]) {
        depth_after(b.drop_first(), (d - 1) as nat)
    } else {
        depth_after(b.drop_first(), d)
    }
}

proof fn lemma_scan_through(b: Seq<char>, x: Seq<char>, d: nat)
    requires
        never_below(b, d),
    ensures
        depth_after(b, d) >= 0,
        scan(b + x, d) == b + scan(x, depth_after(b, d) as nat),
    decreases b.len(),
{
    if b.len() == 0 {
        assert(b + x =~= x);
        assert(b + scan(x, d) =~= scan(x, d));
    } else {
        let nd: nat = if is_opener(b[0]) {
            d + 1
        } else if is_closer(b[0]) {
            (d - 1) as nat
        } else {
            d
        };
        lemma_scan_through(b.drop_first(), x, nd);
        assert((b + x).drop_first() =~= b.drop_first() + x);
        assert((b + x)[0] == b[0]);
        assert(b =~= seq![b[0]] + b.drop_first());
        assert(scan(b + x, d) =~= b + scan(x, depth_after(b, d) as nat));
    }
}

/// Recovery is bracket-correct: on a line `kw{body}rest`, where the body
/// closes every bracket it opens and never closes one it did not, recovery
/// gives the body exactly: inner brackets kept, the outer closing one and
/// what follows it left out.
pub proof fn lemma_recovery_matches_brackets(
    kw: Seq<char>,
    body: Seq<char>,
    rest: Seq<char>,
    line: String,
)
    requires
        line@ == kw + seq!['{'] + body + seq!['}'] + rest,
        never_below(body, 0),
        depth_after(body, 0) == 0,
    ensures
        recovered(seq![line], 1, kw) == body,
{
    let l = line@;
    let lines = seq![line];
    assert(l.subrange(0, kw.len() as int) =~= kw);
    assert(occurs_at(l, kw, 0));
    assert(find_from(l, kw, 0) == Some(0int));
    assert(find_line(lines, kw, 0) == Some(0int));
    assert(l[kw.len() as int] == '{');
    assert(body_start(l, kw, 0) == kw.len() + 1);
    assert(lines.subrange(1, 1) =~= Seq::<String>::empty());
    assert(lines_text(Seq::<String>::empty()) == Seq::<char>::empty());
    let x = seq!['}'] + rest + seq!['\n'];
    assert(l.subrange((kw.len() + 1) as int, l.len() as int) =~= body + seq!['}'] + rest);
    assert(stream(lines, line_index(1), kw) =~= body + x);
    lemma_scan_through(body, x, 0);
    assert(x[0] == '}');
    assert(scan(x, 0) == Seq::<char>::empty());
    assert(body + Seq::<char>::empty() =~= body);
}

/// A keyword followed at once by `{}` recovers nothing, so recovery reports
/// an empty output rather than succeeding with an empty string.
pub proof fn lemma_empty_body_recovers_nothing(kw: Seq<char>, rest: Seq<char>, line: String)
    requires
        line@ == kw + seq!['{', '}'] + rest,
    ensures
        recovered(seq![line], 1, kw) == Seq::<char>::empty(),
        !has_content(recovered(seq![line], 1, kw)),
{
    let e = Seq::<char>::empty();
    assert(line@ =~= kw + seq!['{'] + e + seq!['}'] + rest);
    lemma_recovery_matches_brackets(kw, e, rest, line);
}

} // verus!
