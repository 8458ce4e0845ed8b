use std::collections::HashMap;

use vstd::prelude::*;
use vstd::string::*;

use crate::ast::{pieces_list, Markup, PieceView};
use crate::escape::{escape_html, escape_to_string};
use crate::generate::{n_evals, render_ops, render_static, values_fn, Expansion};
use crate::interpret::{covers, expand_runtime_main, render_pieces, value_of};
use crate::recover::SourceChoice;
use crate::runtime::{decimal, n_dynamic};

verus! {

broadcast use vstd::std_specs::hash::group_hash_axioms;

/// The in-place marker that stands for a rendering that failed.
pub open spec fn error_marker(message: Seq<char>) -> Seq<char> {
    "<pre class=\"maud-error\">"@ + escape_html(message) + "</pre>"@
}

/// The rendering of a re-parsed template where `values[k]` is the value
/// computed for var-id `k`; the error marker where the template has more
/// dynamic pieces than there are values.
pub open spec fn reload_text(ms: Seq<Markup>, values: Seq<String>) -> Seq<char> {
    let ps = pieces_list(ms);
    if n_dynamic(ps) <= values.len() {
        render_pieces(ps, values_fn(values))
    } else {
        error_marker("no value for var-id "@ + decimal(values.len()))
    }
}

/// What a toggled attribute adds: a space and its escaped name when its
/// condition holds, else nothing.
pub open spec fn toggled_attr_text(name: Seq<char>, on: bool) -> Seq<char> {
    if on {
        seq![' '] + escape_html(name)
    } else {
        Seq::empty()
    }
}

/// What an optional attribute adds: ` name="value"`, the name escaped and the
/// value as rendered, when its condition yields a value, else nothing.
pub open spec fn optional_attr_text(name: Seq<char>, value: Option<&str>) -> Seq<char> {
    match value {
        Some(v) => seq![' '] + escape_html(name) + seq!['=', '"'] + v@ + seq!['"'],
        None => Seq::empty(),
    }
}

pub fn render_toggled_attr(name: &str, on: bool) -> (r: String)
    ensures
        r@ == toggled_attr_text(name@, on),
{
    let mut out = String::new();
    if on {
        proof {
            reveal_strlit(" ");
        }
        out.append(" ");
        escape_to_string(name, &mut out);
        proof {
            assert(out@ =~= toggled_attr_text(name@, on));
        }
    } else {
        proof {
            assert(out@ =~= toggled_attr_text(name@, on));
        }
    }
    out
}

pub fn render_optional_attr(name: &str, value: Option<&str>) -> (r: String)
    ensures
        r@ == optional_attr_text(name@, value),
{
    let mut out = String::new();
    match value {
        Some(v) => {
            proof {
                reveal_strlit(" ");
                reveal_strlit("=\"");
                reveal_strlit("\"");
                assert("=\""@ =~= seq!['=', '"']);
            }
            out.append(" ");
            escape_to_string(name, &mut out);
            out.append("=\"");
            out.append(v);
            out.append("\"");
            proof {
                assert(out@ =~= optional_attr_text(name@, value));
            }
        },
        None => {
            proof {
                assert(out@ =~= optional_attr_text(name@, value));
            }
        },
    }
    out
}

/// The var map that holds `values[k]` under `k`.
fn vars_from_values(values: &Vec<String>) -> (m: HashMap<usize, String>)
    ensures
        forall|k: usize| #[trigger] m@.contains_key(k) <==> k < values@.len(),
        forall|k: usize| k < values@.len() ==> (#[trigger] m@[k])@ == values@[k as int]@,
{
    let mut m: HashMap<usize, String> = HashMap::new();
    let mut i: usize = 0;
    while i < values.len()
        invariant
            i <= values@.len(),
            forall|k: usize| #[trigger] m@.contains_key(k) <==> k < i,
            forall|k: usize| k < i ==> (#[trigger] m@[k])@ == values@[k as int]@,
        decreases values.len() - i,
    {
        m.insert(i, values[i].clone());
        i = i + 1;
    }
    m
}

proof fn lemma_render_agrees(
    ps: Seq<PieceView>,
    f: spec_fn(nat) -> Seq<char>,
    g: spec_fn(nat) -> Seq<char>,
)
    requires
        forall|k: nat| k < n_dynamic(ps) ==> #[trigger] f(k) == g(k),
    ensures
        render_pieces(ps, f) == render_pieces(ps, g),
    decreases ps.len(),
{
    if ps.len() > 0 {
        let p = ps.drop_last();
        assert(n_dynamic(p) <= n_dynamic(ps));
        lemma_render_agrees(p, f, g);
    }
}

/// Renders a re-parsed template with the values computed for its dynamic
/// pieces; an interpreter error becomes the in-place error marker.
pub fn render_recovered(reparsed: Vec<Markup>, values: &Vec<String>) -> (r: String)
    ensures
        r@ == reload_text(reparsed@, values@),
{
    let ghost ms = reparsed@;
    let ghost ps = pieces_list(ms);
    let vars = vars_from_values(values);
    let n = values.len();
    let ghost vm = vars@;
    proof {
        assert(covers(vm, n_dynamic(ps)) <==> n_dynamic(ps) <= values@.len()) by {
            if n_dynamic(ps) > values@.len() {
                assert(!vm.contains_key(n));
            }
        }
        assert forall|k: nat| k < n_dynamic(ps) && n_dynamic(ps) <= values@.len() implies #[trigger] value_of(vm)(
            k,
        ) == values_fn(values@)(k) by {
            let ku = k as usize;
            assert(ku < n);
            assert(vm[ku]@ == values@[ku as int]@);
        }
        if n_dynamic(ps) <= values@.len() {
            lemma_render_agrees(ps, value_of(vm), values_fn(values@));
        }
    }
    match expand_runtime_main(vars, reparsed) {
        Ok(s) => s,
        Err(m) => {
            proof {
                let v = choose|v: usize|
                    covers(vm, v as nat) && !vm.contains_key(v) && m@ == "no value for var-id "@
                        + decimal(v as nat);
                if v < values@.len() {
                    assert(vm.contains_key(v));
                }
                if v > values@.len() {
                    assert(vm.contains_key(n));
                }
                reveal_strlit("<pre class=\"maud-error\">");
            }
            let mut out = String::from_str("<pre class=\"maud-error\">");
            escape_to_string(m.as_str(), &mut out);
            out.append("</pre>");
            out
        },
    }
}

/// What one hot-reload invocation yields at run time.
pub enum Rendering {
    Html { text: String },
    /// Strict mode and no source: the invocation aborts with this message.
    Abort { message: String },
}

/// The run-time step of a hot-reload invocation whose static expansion is
/// `compiled`, once `choose_source` has decided and the host has evaluated
/// the steps of `compiled` into `values`, in order. Where the source was
/// recovered, `reparsed` is the parse of the recovered text.
pub fn render_invocation(
    choice: SourceChoice,
    compiled: &Expansion,
    values: &Vec<String>,
    reparsed: Vec<Markup>,
) -> (r: Rendering)
    requires
        values@.len() >= n_evals(compiled.ops@),
    ensures
        choice is Compiled ==> (r matches Rendering::Html { text } && text@ == render_ops(
            compiled.ops@,
            values_fn(values@),
        )),
        choice matches SourceChoice::Fatal { message } ==> r == (Rendering::Abort { message }),
        choice is Recovered ==> (r matches Rendering::Html { text } && text@ == reload_text(
            reparsed@,
            values@,
        )),
{
    match choice {
        SourceChoice::Recovered { .. } => Rendering::Html { text: render_recovered(reparsed, values) },
        SourceChoice::Compiled => Rendering::Html { text: render_static(&compiled.ops, values) },
        SourceChoice::Fatal { message } => Rendering::Abort { message },
    }
}

} // verus!
