use std::collections::HashMap;

use vstd::prelude::*;
use vstd::string::*;

use crate::ast::{pieces_list, views, Markup, Piece, PieceView};
use crate::escape::{escape_html, escape_to_string};
use crate::runtime::{decimal, flatten, n_dynamic, push_decimal};

verus! {

broadcast use vstd::std_specs::hash::group_hash_axioms;

/// The rendering of `ps` where the dynamic piece with var-id `v` renders as
/// `vals(v)`: structure as it is, text HTML-escaped, bindings as nothing.
pub open spec fn render_pieces(ps: Seq<PieceView>, vals: spec_fn(nat) -> Seq<char>) -> Seq<char>
    decreases ps.len(),
{
    if ps.len() == 0 {
        Seq::empty()
    } else {
        render_pieces(ps.drop_last(), vals) + match ps.last() {
            PieceView::Raw { text } => text,
            PieceView::Text { text } => escape_html(text),
            PieceView::Dynamic { .. } => vals(n_dynamic(ps.drop_last())),
            PieceView::Binding { .. } => Seq::empty(),
        }
    }
}

/// The values of a var map, by var-id.
pub open spec fn value_of(vars: Map<usize, String>) -> spec_fn(nat) -> Seq<char> {
    |v: nat| vars[v as usize]@
}

/// True when `vars` holds a value for each var-id below `n`.
pub open spec fn covers(vars: Map<usize, String>, n: nat) -> bool {
    forall|v: usize| (v as nat) < n ==> #[trigger] vars.contains_key(v)
}

pub enum InterpreterFault {
    /// The template has a dynamic piece with this var-id, the map no value.
    MissingVar { var_id: usize },
}

impl InterpreterFault {
    pub fn message(&self) -> (r: String)
        ensures
            self matches InterpreterFault::MissingVar { var_id } ==> r@ == "no value for var-id "@
                + decimal(var_id as nat),
    {
        match self {
            InterpreterFault::MissingVar { var_id } => {
                let mut s = String::from_str("no value for var-id ");
                push_decimal(*var_id, &mut s);
                s
            },
        }
    }
}

/// Renders `pieces`, putting in for the dynamic piece with var-id `v` the
/// value that `vars` holds under `v`.
pub fn run(pieces: &Vec<Piece>, vars: &HashMap<usize, String>) -> (r: Result<String, InterpreterFault>)
    ensures
        covers(vars@, n_dynamic(views(pieces@))) ==> (r matches Ok(s) && s@ == render_pieces(
            views(pieces@),
            value_of(vars@),
        )),
        r is Ok ==> covers(vars@, n_dynamic(views(pieces@))),
        r matches Err(InterpreterFault::MissingVar { var_id }) ==> var_id < n_dynamic(
            views(pieces@),
        ) && !vars@.contains_key(var_id) && covers(vars@, var_id as nat),
{
    let ghost ps = views(pieces@);
    let mut out = String::new();
    let mut count: usize = 0;
    let mut i: usize = 0;
    while i < pieces.len()
        invariant
            ps == views(pieces@),
            i <= pieces@.len(),
            count <= i,
            count == n_dynamic(ps.subrange(0, i as int)),
            covers(vars@, count as nat),
            out@ == render_pieces(ps.subrange(0, i as int), value_of(vars@)),
            n_dynamic(ps.subrange(0, i as int)) <= n_dynamic(ps),
        decreases pieces.len() - i,
    {
        let ghost pre = ps.subrange(0, i as int);
        let ghost next = ps.subrange(0, i + 1);
        proof {
            assert(next.drop_last() =~= pre);
            assert(next.last() == pieces@[i as int]@);
            lemma_n_dynamic_prefix(ps, i + 1);
        }
        match &pieces[i] {
            Piece::Raw { text } => {
                out.append(text.as_str());
            },
            Piece::Text { text } => {
                escape_to_string(text.as_str(), &mut out);
            },
            Piece::Dynamic { .. } => {
                match vars.get(&count) {
                    Some(v) => {
                        out.append(v.as_str());
                        assert(covers(vars@, (count + 1) as nat)) by {
                            assert forall|w: usize| (w as nat) < count + 1 implies #[trigger] vars@.contains_key(w) by {
                                if w < count {
                                    assert(vars@.contains_key(w));
                                }
                            }
                        }
                    },
                    None => {
                        return Err(InterpreterFault::MissingVar { var_id: count });
                    },
                }
                count = count + 1;
            },
            Piece::Binding { .. } => {},
        }
        proof {
            assert(out@ =~= render_pieces(next, value_of(vars@)));
        }
        i = i + 1;
    }
    proof {
        assert(ps.subrange(0, i as int) =~= ps);
    }
    Ok(out)
}

/// A prefix holds no more dynamic pieces than the whole.
pub proof fn lemma_n_dynamic_prefix(ps: Seq<PieceView>, j: int)
    requires
        0 <= j <= ps.len(),
    ensures
        n_dynamic(ps.subrange(0, j)) <= n_dynamic(ps),
    decreases ps.len() - j,
{
    if j < ps.len() {
        lemma_n_dynamic_prefix(ps, j + 1);
        assert(ps.subrange(0, j + 1).drop_last() =~= ps.subrange(0, j));
    } else {
        assert(ps.subrange(0, j) =~= ps);
    }
}

/// Renders a template with the values that were computed ahead of time for
/// its dynamic pieces; an error names a var-id that has no value.
pub fn expand_runtime_main(vars: HashMap<usize, String>, markups: Vec<Markup>) -> (r: Result<
    String,
    String,
>)
    ensures
        covers(vars@, n_dynamic(pieces_list(markups@))) ==> (r matches Ok(s) && s@
            == render_pieces(pieces_list(markups@), value_of(vars@))),
        !covers(vars@, n_dynamic(pieces_list(markups@))) ==> r is Err,
        r matches Err(m) ==> exists|v: usize|
            covers(vars@, v as nat) && !vars@.contains_key(v) && m@ == "no value for var-id "@
                + decimal(v as nat),
{
    let pieces = flatten(markups);
    match run(&pieces, &vars) {
        Ok(s) => Ok(s),
        Err(e) => Err(e.message()),
    }
}

} // verus!
