use vstd::prelude::*;
use vstd::string::*;

use crate::ast::{
    attr_pieces, attrs_pieces, has_let, pieces, pieces_list, views, Attr, AttrType, Block,
    ElementBody, Fragment, Markup, Piece, PieceView, Special,
};
use crate::generate::{actions, expand_from_parsed, steps_of, Expansion};
use crate::escape::{escape_format, escape_format_to_string, escape_html, escape_to_string};

verus! {

broadcast use {
    vstd::seq::axiom_seq_index_decreases,
    vstd::seq::axiom_seq_subrange_decreases,
    vstd::std_specs::vec::axiom_vec_decreases_to_view,
};

pub open spec fn digit_char(d: nat) -> char {
    if d == 0 { '0' }
    else if d == 1 { '1' }
    else if d == 2 { '2' }
    else if d == 3 { '3' }
    else if d == 4 { '4' }
    else if d == 5 { '5' }
    else if d == 6 { '6' }
    else if d == 7 { '7' }
    else if d == 8 { '8' }
    else { '9' }
}

/// The decimal digits of `n`, without leading zeros.
pub open spec fn decimal(n: nat) -> Seq<char>
    decreases n,
{
    if n < 10 {
        seq![digit_char(n)]
    } else {
        decimal(n / 10) + seq![digit_char(n % 10)]
    }
}

/// The placeholder that stands for the dynamic piece with var-id `v`.
pub open spec fn placeholder(v: nat) -> Seq<char> {
    seq!['{'] + decimal(v) + seq!['}']
}

/// How many dynamic pieces `ps` holds.
pub open spec fn n_dynamic(ps: Seq<PieceView>) -> nat
    decreases ps.len(),
{
    if ps.len() == 0 {
        0
    } else {
        n_dynamic(ps.drop_last()) + if ps.last() is Dynamic { 1nat } else { 0nat }
    }
}

/// The format template of `ps`: structure as it is, text HTML- and
/// format-escaped, and the dynamic piece with var-id `v` as `{v}`, var-ids
/// counted from 0 in order.
pub open spec fn format_of(ps: Seq<PieceView>) -> Seq<char>
    decreases ps.len(),
{
    if ps.len() == 0 {
        Seq::empty()
    } else {
        format_of(ps.drop_last()) + match ps.last() {
            PieceView::Raw { text } => text,
            PieceView::Text { text } => escape_html(escape_format(text)),
            PieceView::Dynamic { .. } => placeholder(n_dynamic(ps.drop_last())),
            PieceView::Binding { .. } => Seq::empty(),
        }
    }
}

/// What runs once, ahead of rendering, in the order it is listed.
pub enum Stmt {
    /// A binding, in scope for the statements after it.
    Let { tokens: String },
    /// Evaluate `fragment` and record its rendering under `var_id`.
    Insert { var_id: usize, fragment: Fragment },
}

/// The statements of `ps`: each binding, and, when `record` holds, an insert
/// for each dynamic piece under its var-id.
pub open spec fn stmts_of(ps: Seq<PieceView>, record: bool) -> Seq<Stmt>
    decreases ps.len(),
{
    if ps.len() == 0 {
        Seq::empty()
    } else {
        stmts_of(ps.drop_last(), record) + match ps.last() {
            PieceView::Binding { tokens } => seq![Stmt::Let { tokens }],
            PieceView::Dynamic { fragment } => if record {
                seq![Stmt::Insert { var_id: n_dynamic(ps.drop_last()) as usize, fragment }]
            } else {
                Seq::empty()
            },
            _ => Seq::empty(),
        }
    }
}

pub proof fn lemma_n_dynamic_bound(ps: Seq<PieceView>)
    ensures
        n_dynamic(ps) <= ps.len(),
    decreases ps.len(),
{
    if ps.len() > 0 {
        lemma_n_dynamic_bound(ps.drop_last());
    }
}

/// Appends the decimal digits of `n` to `out`.
pub(crate) fn push_decimal(n: usize, out: &mut String)
    ensures
        final(out)@ == old(out)@ + decimal(n as nat),
    decreases n,
{
    if n >= 10 {
        push_decimal(n / 10, out);
    }
    let d = n % 10;
    proof {
        reveal_strlit("0");
        reveal_strlit("1");
        reveal_strlit("2");
        reveal_strlit("3");
        reveal_strlit("4");
        reveal_strlit("5");
        reveal_strlit("6");
        reveal_strlit("7");
        reveal_strlit("8");
        reveal_strlit("9");
    }
    let s = if d == 0 { "0" }
        else if d == 1 { "1" }
        else if d == 2 { "2" }
        else if d == 3 { "3" }
        else if d == 4 { "4" }
        else if d == 5 { "5" }
        else if d == 6 { "6" }
        else if d == 7 { "7" }
        else if d == 8 { "8" }
        else { "9" };
    out.append(s);
    proof {
        assert(s@ =~= seq![digit_char(d as nat)]);
        assert(out@ =~= old(out)@ + decimal(n as nat));
    }
}

/// The build state of one template: its format template, the next var-id,
/// and the pieces so far.
pub struct RuntimeBuilder {
    record_vars: bool,
    format_str: String,
    arg_track: usize,
    pieces: Vec<Piece>,
}

impl RuntimeBuilder {
    pub closed spec fn trace(&self) -> Seq<PieceView> {
        views(self.pieces@)
    }

    pub closed spec fn records(&self) -> bool {
        self.record_vars
    }

    pub closed spec fn wf(&self) -> bool {
        &&& self.format_str@ == format_of(self.trace())
        &&& self.arg_track == n_dynamic(self.trace())
    }

    /// An empty builder; with `record_vars` its statements hold an insert for
    /// each dynamic piece, else it serves only for the format template.
    pub fn new(record_vars: bool) -> (r: RuntimeBuilder)
        ensures
            r.wf(),
            r.trace() == Seq::<PieceView>::empty(),
            r.records() == record_vars,
    {
        let r = RuntimeBuilder {
            record_vars,
            format_str: String::new(),
            arg_track: 0,
            pieces: Vec::new(),
        };
        proof {
            assert(r.trace() =~= Seq::<PieceView>::empty());
        }
        r
    }

    proof fn lemma_push(&self, p: Piece)
        ensures
            views(self.pieces@.push(p)) == self.trace().push(p@),
            self.trace().push(p@).drop_last() == self.trace(),
            self.trace().push(p@).last() == p@,
    {
        assert(views(self.pieces@.push(p)) =~= self.trace().push(p@));
        assert(self.trace().push(p@).drop_last() =~= self.trace());
    }

    /// Appends markup structure as it is.
    pub fn push_str(&mut self, string: &str)
        requires
            old(self).wf(),
        ensures
            final(self).wf(),
            final(self).records() == old(self).records(),
            final(self).trace() == old(self).trace().push(PieceView::Raw { text: string@ }),
    {
        self.format_str.append(string);
        let p = Piece::Raw { text: String::from_str(string) };
        proof {
            self.lemma_push(p);
        }
        self.pieces.push(p);
    }

    /// Appends template text, escaped for HTML and for the format template.
    pub fn push_escaped(&mut self, string: String)
        requires
            old(self).wf(),
        ensures
            final(self).wf(),
            final(self).records() == old(self).records(),
            final(self).trace() == old(self).trace().push(PieceView::Text { text: string@ }),
    {
        let escaped = escape_format_to_string(string.as_str());
        escape_to_string(escaped.as_str(), &mut self.format_str);
        let p = Piece::Text { text: string };
        proof {
            self.lemma_push(p);
        }
        self.pieces.push(p);
    }

    /// Appends a dynamic piece, and its placeholder under the next var-id.
    pub fn push_format_arg(&mut self, fragment: Fragment)
        requires
            old(self).wf(),
        ensures
            final(self).wf(),
            final(self).records() == old(self).records(),
            final(self).trace() == old(self).trace().push(PieceView::Dynamic { fragment }),
    {
        let v = self.arg_track;
        proof {
            reveal_strlit("{");
            reveal_strlit("}");
        }
        self.format_str.append("{");
        push_decimal(v, &mut self.format_str);
        self.format_str.append("}");
        let p = Piece::Dynamic { fragment };
        proof {
            self.lemma_push(p);
            lemma_n_dynamic_bound(self.trace());
        }
        self.pieces.push(p);
        let n = self.pieces.len();
        proof {
            assert(v < n);
            let t = self.trace();
            assert(t.drop_last() == old(self).trace());
            assert(self.format_str@ =~= format_of(t));
        }
        self.arg_track = v + 1;
    }

    /// Appends a binding.
    pub fn push_let(&mut self, tokens: String)
        requires
            old(self).wf(),
        ensures
            final(self).wf(),
            final(self).records() == old(self).records(),
            final(self).trace() == old(self).trace().push(PieceView::Binding { tokens }),
    {
        let p = Piece::Binding { tokens };
        proof {
            self.lemma_push(p);
        }
        self.pieces.push(p);
    }

    /// The format template built so far.
    pub fn format_str(&self) -> (r: String)
        requires
            self.wf(),
        ensures
            r@ == format_of(self.trace()),
    {
        self.format_str.clone()
    }

    /// The statements to run ahead of rendering.
    pub fn finish(self) -> (r: Vec<Stmt>)
        requires
            self.wf(),
        ensures
            r@ == stmts_of(self.trace(), self.records()),
    {
        let ghost all = self.trace();
        let record = self.record_vars;
        let mut rest = self.pieces;
        let mut out: Vec<Stmt> = Vec::new();
        let mut count: usize = 0;
        let ghost k: int = 0;
        let n = rest.len();
        while rest.len() > 0
            invariant
                0 <= k <= all.len(),
                views(rest@) == all.subrange(k, all.len() as int),
                out@ == stmts_of(all.subrange(0, k), record),
                count == n_dynamic(all.subrange(0, k)),
                count <= k,
                all.len() == n,
            decreases rest.len(),
        {
            let ghost before = rest@;
            let p = rest.remove(0);
            proof {
                assert(views(before)[0] == p@);
                assert(views(before).len() == before.len());
                assert(k < all.len());
                assert(all.subrange(k, all.len() as int)[0] == all[k]);
                assert(views(rest@) =~= views(before).subrange(1, before.len() as int));
                assert(all.subrange(0, k + 1).drop_last() =~= all.subrange(0, k));
                assert(all.subrange(0, k + 1).last() == p@);
            }
            match p {
                Piece::Binding { tokens } => {
                    out.push(Stmt::Let { tokens });
                },
                Piece::Dynamic { fragment } => {
                    if record {
                        out.push(Stmt::Insert { var_id: count, fragment });
                    }
                    count = count + 1;
                },
                _ => {},
            }
            proof {
                k = k + 1;
                assert(views(rest@) =~= all.subrange(k, all.len() as int));
                assert(out@ =~= stmts_of(all.subrange(0, k), record));
            }
        }
        proof {
            assert(all.subrange(0, k) =~= all);
        }
        out
    }

    /// The pieces built so far.
    pub fn into_pieces(self) -> (r: Vec<Piece>)
        ensures
            views(r@) == self.trace(),
    {
        self.pieces
    }
}

/// The statements that prepare a template for hot reload: its bindings and,
/// when `record_vars` holds, an insert for each dynamic piece under var-ids
/// `0, 1, ...` in left-to-right, depth-first order.
pub fn generate(record_vars: bool, markups: Vec<Markup>) -> (r: Vec<Stmt>)
    ensures
        r@ == stmts_of(pieces_list(markups@), record_vars),
{
    let mut build = RuntimeBuilder::new(record_vars);
    RuntimeGenerator::new().markups(markups, &mut build);
    proof {
        assert(build.trace() =~= pieces_list(markups@));
    }
    build.finish()
}

/// The format template of a template: its text escaped, and `{v}` for the
/// dynamic piece with var-id `v`.
pub fn format_str(markups: Vec<Markup>) -> (r: String)
    ensures
        r@ == format_of(pieces_list(markups@)),
{
    let mut build = RuntimeBuilder::new(false);
    RuntimeGenerator::new().markups(markups, &mut build);
    proof {
        assert(build.trace() =~= pieces_list(markups@));
    }
    build.format_str()
}

/// The pieces of a template, in left-to-right, depth-first order.
pub fn flatten(markups: Vec<Markup>) -> (r: Vec<Piece>)
    ensures
        views(r@) == pieces_list(markups@),
{
    let mut build = RuntimeBuilder::new(false);
    RuntimeGenerator::new().markups(markups, &mut build);
    proof {
        assert(build.trace() =~= pieces_list(markups@));
    }
    build.into_pieces()
}

/// What a hot-reload invocation carries: the keyword that starts it in its
/// source file, its source text as compiled, and its static expansion. The
/// evaluations of that expansion, in order, compute the values under var-ids
/// `0, 1, ...`; its steps render the compiled text where recovery fails.
pub struct RuntimeExpansion {
    pub skip_to_keyword: String,
    pub original_input: String,
    pub compiled: Expansion,
}

/// The hot-reload form of an invocation whose source text is `input`, whose
/// parse is `markups`, and which starts with `skip_to_keyword`.
pub fn expand_runtime_from_parsed(input: &str, markups: Vec<Markup>, skip_to_keyword: &str) -> (r:
    RuntimeExpansion)
    ensures
        r.skip_to_keyword@ == skip_to_keyword@,
        r.original_input@ == input@,
        r.compiled.capacity == input.spec_bytes().len() as usize,
        steps_of(r.compiled.ops@, pieces_list(markups@)),
        stmts_of(actions(r.compiled.ops@), true) == stmts_of(pieces_list(markups@), true),
{
    let compiled = expand_from_parsed(markups, input.len());
    proof {
        crate::laws::lemma_stmts_from_actions(pieces_list(markups@), true);
    }
    RuntimeExpansion {
        skip_to_keyword: String::from_str(skip_to_keyword),
        original_input: String::from_str(input),
        compiled,
    }
}

/// The hot-reload form of an `html!{` invocation.
pub fn expand_runtime(input: &str, markups: Vec<Markup>) -> (r: RuntimeExpansion)
    ensures
        r.skip_to_keyword@ == "html!{"@,
        r.original_input@ == input@,
        r.compiled.capacity == input.spec_bytes().len() as usize,
        steps_of(r.compiled.ops@, pieces_list(markups@)),
        stmts_of(actions(r.compiled.ops@), true) == stmts_of(pieces_list(markups@), true),
{
    expand_runtime_from_parsed(input, markups, "html!{")
}

/// How the body of one segment of a control construct is rendered.
pub enum SegmentExpansion {
    /// Reloaded from its own source text at run time, found by its head.
    HotReload { head: String, reload: RuntimeExpansion },
    /// Rendered by the static path, as compiled.
    Static { head: String, compiled: Expansion },
}

/// `r` is the expansion of `segment`: its hot-reload form where the body kept
/// its source text, with the head as the keyword to find it by; else its
/// static form.
pub open spec fn segment_expanded(segment: Special, r: SegmentExpansion) -> bool {
    let ms = pieces_list(segment.body.markups@);
    match segment.body.raw_body {
        Some(raw) => r matches SegmentExpansion::HotReload { head, reload } && head == segment.head
            && reload.skip_to_keyword@ == segment.head@ && reload.original_input@ == raw@
            && steps_of(reload.compiled.ops@, ms),
        None => r matches SegmentExpansion::Static { head, compiled } && head == segment.head
            && compiled.capacity == 0 && steps_of(compiled.ops@, ms),
    }
}

/// Expands one segment of a control construct.
pub fn expand_segment(segment: Special) -> (r: SegmentExpansion)
    ensures
        segment_expanded(segment, r),
{
    let ghost seg = segment;
    let Special { head, body } = segment;
    let Block { markups, raw_body } = body;
    match raw_body {
        Some(raw) => {
            let reload = expand_runtime_from_parsed(raw.as_str(), markups, head.as_str());
            SegmentExpansion::HotReload { head, reload }
        },
        None => SegmentExpansion::Static { head, compiled: expand_from_parsed(markups, 0) },
    }
}

/// Expands each segment of a control construct, in order.
pub fn expand_special(segments: Vec<Special>) -> (r: Vec<SegmentExpansion>)
    ensures
        r@.len() == segments@.len(),
        forall|i: int| 0 <= i < r@.len() ==> segment_expanded(segments@[i], #[trigger] r@[i]),
{
    let ghost all = segments@;
    let mut rest = segments;
    let mut out: Vec<SegmentExpansion> = Vec::new();
    while rest.len() > 0
        invariant
            out@.len() + rest@.len() == all.len(),
            rest@ == all.subrange(out@.len() as int, all.len() as int),
            forall|i: int| 0 <= i < out@.len() ==> segment_expanded(all[i], #[trigger] out@[i]),
        decreases rest.len(),
    {
        let ghost k = out@.len() as int;
        let ghost before = rest@;
        let seg = rest.remove(0);
        proof {
            assert(before[0] == all[k]);
        }
        let e = expand_segment(seg);
        out.push(e);
        proof {
            assert(rest@ =~= all.subrange(out@.len() as int, all.len() as int));
        }
    }
    out
}

/// What the host evaluates for one dynamic piece, with each body that it
/// renders already expanded.
pub enum FragmentExpansion {
    Splice { expr: String },
    /// A block that holds a binding, rendered by the static path.
    Block { compiled: Expansion },
    /// The segments of a control construct, each expanded.
    Special { segments: Vec<SegmentExpansion> },
    /// See `reload::render_optional_attr`.
    OptionalAttr { name: String, cond: String },
    /// See `reload::render_toggled_attr`.
    ToggledAttr { name: String, cond: String },
}

/// Expands the bodies that a dynamic piece renders: a block through the static
/// path, each segment of a control construct as `expand_segment` says.
pub fn expand_fragment(fragment: Fragment) -> (r: FragmentExpansion)
    ensures
        fragment matches Fragment::Splice { expr } ==> r == (FragmentExpansion::Splice { expr }),
        fragment matches Fragment::Block { block } ==> (r matches FragmentExpansion::Block {
            compiled,
        } && compiled.capacity == 0 && steps_of(compiled.ops@, pieces_list(block.markups@))),
        fragment matches Fragment::Special { segments } ==> (r matches FragmentExpansion::Special {
            segments: es,
        } && es@.len() == segments@.len() && forall|i: int|
            0 <= i < es@.len() ==> segment_expanded(segments@[i], #[trigger] es@[i])),
        fragment matches Fragment::OptionalAttr { name, cond } ==> r == (
        FragmentExpansion::OptionalAttr { name, cond }),
        fragment matches Fragment::ToggledAttr { name, cond } ==> r == (
        FragmentExpansion::ToggledAttr { name, cond }),
{
    match fragment {
        Fragment::Splice { expr } => FragmentExpansion::Splice { expr },
        Fragment::Block { block } => FragmentExpansion::Block {
            compiled: expand_from_parsed(block.markups, 0),
        },
        Fragment::Special { segments } => FragmentExpansion::Special {
            segments: expand_special(segments),
        },
        Fragment::OptionalAttr { name, cond } => FragmentExpansion::OptionalAttr { name, cond },
        Fragment::ToggledAttr { name, cond } => FragmentExpansion::ToggledAttr { name, cond },
    }
}

/// True when some markup of `ms` is a binding.
fn contains_let(ms: &Vec<Markup>) -> (r: bool)
    ensures
        r == has_let(ms@),
{
    let mut i: usize = 0;
    while i < ms.len()
        invariant
            i <= ms@.len(),
            forall|j: int| 0 <= j < i ==> !(ms@[j] is Let),
        decreases ms.len() - i,
    {
        if let Markup::Let { .. } = &ms[i] {
            return true;
        }
        i = i + 1;
    }
    false
}

/// Walks a template and hands each of its pieces to a builder, in
/// left-to-right, depth-first order.
pub struct RuntimeGenerator {}

impl RuntimeGenerator {
    pub fn new() -> RuntimeGenerator {
        RuntimeGenerator {  }
    }

    pub fn markups(&self, markups: Vec<Markup>, build: &mut RuntimeBuilder)
        requires
            old(build).wf(),
        ensures
            final(build).wf(),
            final(build).records() == old(build).records(),
            final(build).trace() == old(build).trace() + pieces_list(markups@),
        decreases markups,
    {
        let ghost ms = markups@;
        let ghost k: int = 0;
        let ghost whole = markups;
        let mut rest = markups;
        proof {
            assert(ms.subrange(0, 0) =~= Seq::<Markup>::empty());
            assert(rest@ =~= ms.subrange(0, ms.len() as int));
            assert(build.trace() =~= old(build).trace() + pieces_list(ms.subrange(0, 0)));
        }
        while rest.len() > 0
            invariant
                0 <= k <= ms.len(),
                ms == whole@,
                whole == markups,
                rest@ == ms.subrange(k, ms.len() as int),
                build.wf(),
                build.records() == old(build).records(),
                build.trace() == old(build).trace() + pieces_list(ms.subrange(0, k)),
            decreases rest.len(),
        {
            let ghost before = rest@;
            let m = rest.remove(0);
            proof {
                assert(before[0] == ms[k]);
                assert(decreases_to!(whole => whole@));
                assert(decreases_to!(whole@ => whole@[k]));
                assert(m == whole@[k]);
                assert(decreases_to!(whole => whole@[k]));
            }
            self.markup(m, build);
            proof {
                assert(ms.subrange(0, k + 1).drop_last() =~= ms.subrange(0, k));
                k = k + 1;
                assert(rest@ =~= ms.subrange(k, ms.len() as int));
                assert(build.trace() =~= old(build).trace() + pieces_list(ms.subrange(0, k)));
            }
        }
        proof {
            assert(ms.subrange(0, k) =~= ms);
        }
    }

    pub fn markup(&self, markup: Markup, build: &mut RuntimeBuilder)
        requires
            old(build).wf(),
        ensures
            final(build).wf(),
            final(build).records() == old(build).records(),
            final(build).trace() == old(build).trace() + pieces(markup),
        decreases markup, 1nat,
    {
        let ghost m = markup;
        match markup {
            Markup::ParseError => {
                assert(build.trace() =~= old(build).trace() + pieces(m));
            },
            Markup::Block { block } => {
                if contains_let(&block.markups) {
                    self.block(block, build);
                    assert(build.trace() =~= old(build).trace() + pieces(m));
                } else {
                    self.markups(block.markups, build);
                }
            },
            Markup::Literal { content } => {
                build.push_escaped(content);
                assert(build.trace() =~= old(build).trace() + pieces(m));
            },
            Markup::Symbol { symbol } => {
                self.name(symbol, build);
                assert(build.trace() =~= old(build).trace() + pieces(m));
            },
            Markup::Splice { expr } => {
                self.splice(expr, build);
                assert(build.trace() =~= old(build).trace() + pieces(m));
            },
            Markup::Element { .. } => {
                self.element(markup, build);
            },
            Markup::Let { tokens } => {
                build.push_let(tokens);
                assert(build.trace() =~= old(build).trace() + pieces(m));
            },
            Markup::Special { segments } => {
                self.special(segments, build);
                assert(build.trace() =~= old(build).trace() + pieces(m));
            },
        }
    }

    /// A block that holds a binding becomes one dynamic piece, so that the
    /// binding stays in its scope.
    fn block(&self, block: Block, build: &mut RuntimeBuilder)
        requires
            old(build).wf(),
        ensures
            final(build).wf(),
            final(build).records() == old(build).records(),
            final(build).trace() == old(build).trace().push(
                PieceView::Dynamic { fragment: Fragment::Block { block } },
            ),
    {
        build.push_format_arg(Fragment::Block { block });
    }

    fn special(&self, segments: Vec<Special>, build: &mut RuntimeBuilder)
        requires
            old(build).wf(),
        ensures
            final(build).wf(),
            final(build).records() == old(build).records(),
            final(build).trace() == old(build).trace().push(
                PieceView::Dynamic { fragment: Fragment::Special { segments } },
            ),
    {
        build.push_format_arg(Fragment::Special { segments });
    }

    fn splice(&self, expr: String, build: &mut RuntimeBuilder)
        requires
            old(build).wf(),
        ensures
            final(build).wf(),
            final(build).records() == old(build).records(),
            final(build).trace() == old(build).trace().push(
                PieceView::Dynamic { fragment: Fragment::Splice { expr } },
            ),
    {
        build.push_format_arg(Fragment::Splice { expr });
    }

    fn element(&self, markup: Markup, build: &mut RuntimeBuilder)
        requires
            old(build).wf(),
            markup is Element,
        ensures
            final(build).wf(),
            final(build).records() == old(build).records(),
            final(build).trace() == old(build).trace() + pieces(markup),
        decreases markup, 0nat,
    {
        let ghost m = markup;
        let ghost t0 = build.trace();
        let (name, attrs, body) = match markup {
            Markup::Element { name, attrs, body } => (name, attrs, body),
            _ => { return; },
        };
        proof {
            reveal_strlit("<");
            reveal_strlit(">");
            reveal_strlit("</");
            assert("<"@ =~= seq!['<']);
            assert(">"@ =~= seq!['>']);
            assert("</"@ =~= seq!['<', '/']);
        }
        let close = name.clone();
        build.push_str("<");
        self.name(name, build);
        assert(build.trace() =~= t0 + seq![crate::ast::raw(seq!['<']), crate::ast::text(m->name@)]);
        self.attrs(attrs, build);
        build.push_str(">");
        let ghost open = seq![crate::ast::raw(seq!['<']), crate::ast::text(m->name@)]
            + attrs_pieces(m->attrs@) + seq![crate::ast::raw(seq!['>'])];
        assert(build.trace() =~= t0 + open);
        match body {
            ElementBody::Void => {},
            ElementBody::Block { block } => {
                self.markups(block.markups, build);
                build.push_str("</");
                self.name(close, build);
                build.push_str(">");
                assert(build.trace() =~= t0 + pieces(m));
            },
        }
    }

    fn name(&self, name: String, build: &mut RuntimeBuilder)
        requires
            old(build).wf(),
        ensures
            final(build).wf(),
            final(build).records() == old(build).records(),
            final(build).trace() == old(build).trace().push(PieceView::Text { text: name@ }),
    {
        build.push_escaped(name);
    }

    fn attrs(&self, attrs: Vec<Attr>, build: &mut RuntimeBuilder)
        requires
            old(build).wf(),
        ensures
            final(build).wf(),
            final(build).records() == old(build).records(),
            final(build).trace() == old(build).trace() + attrs_pieces(attrs@),
        decreases attrs,
    {
        let ghost all = attrs@;
        let ghost k: int = 0;
        let ghost whole = attrs;
        let mut rest = attrs;
        proof {
            assert(rest@ =~= all.subrange(0, all.len() as int));
            assert(build.trace() =~= old(build).trace() + attrs_pieces(all.subrange(0, 0)));
        }
        while rest.len() > 0
            invariant
                0 <= k <= all.len(),
                all == whole@,
                whole == attrs,
                rest@ == all.subrange(k, all.len() as int),
                build.wf(),
                build.records() == old(build).records(),
                build.trace() == old(build).trace() + attrs_pieces(all.subrange(0, k)),
            decreases rest.len(),
        {
            let ghost before = rest@;
            let ghost t0 = build.trace();
            let attr = rest.remove(0);
            let ghost a = attr;
            proof {
                reveal_strlit(" ");
                reveal_strlit("=\"");
                reveal_strlit("\"");
                assert(" "@ =~= seq![' ']);
                assert("=\""@ =~= seq!['=', '"']);
                assert("\""@ =~= seq!['"']);
                assert(before[0] == all[k]);
                assert(a == whole@[k]);
                assert(decreases_to!(whole => whole@));
                assert(decreases_to!(whole@ => whole@[k]));
                assert(decreases_to!(attrs => a));
            }
            let name = attr.name;
            match attr.attr_type {
                AttrType::Normal { value } => {
                    build.push_str(" ");
                    self.name(name, build);
                    build.push_str("=\"");
                    self.markup(*value, build);
                    build.push_str("\"");
                },
                AttrType::Optional { cond } => {
                    build.push_format_arg(Fragment::OptionalAttr { name, cond });
                },
                AttrType::Empty { toggler: None } => {
                    build.push_str(" ");
                    self.name(name, build);
                },
                AttrType::Empty { toggler: Some(cond) } => {
                    build.push_format_arg(Fragment::ToggledAttr { name, cond });
                },
            }
            proof {
                assert(build.trace() =~= t0 + attr_pieces(a));
                assert(all.subrange(0, k + 1).drop_last() =~= all.subrange(0, k));
                k = k + 1;
                assert(rest@ =~= all.subrange(k, all.len() as int));
                assert(build.trace() =~= old(build).trace() + attrs_pieces(all.subrange(0, k)));
            }
        }
        proof {
            assert(all.subrange(0, k) =~= all);
        }
    }
}

} // verus!
