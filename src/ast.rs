use vstd::prelude::*;

verus! {

broadcast use {
    vstd::seq::axiom_seq_index_decreases,
    vstd::seq::axiom_seq_subrange_decreases,
    vstd::std_specs::vec::axiom_vec_decreases_to_view,
};

/// One node of a parsed template.
pub enum Markup {
    /// Stands where the input was malformed; renders nothing.
    ParseError,
    Block { block: Block },
    Literal { content: String },
    Symbol { symbol: String },
    /// A host expression whose rendered value is spliced in.
    Splice { expr: String },
    Element { name: String, attrs: Vec<Attr>, body: ElementBody },
    /// A local binding, in scope for the rest of the enclosing block.
    Let { tokens: String },
    /// A chain of control constructs (`if`/`else`, `for`, `while`, `match`).
    Special { segments: Vec<Special> },
}

/// A braced sequence of markups; `raw_body` keeps its source text when the
/// hot-reload backend is active.
pub struct Block {
    pub markups: Vec<Markup>,
    pub raw_body: Option<String>,
}

pub enum ElementBody {
    /// `name;`: no closing tag.
    Void,
    Block { block: Block },
}

pub struct Attr {
    pub name: String,
    pub attr_type: AttrType,
}

pub enum AttrType {
    /// `name=value`
    Normal { value: Box<Markup> },
    /// `name?[cond]`: `cond` yields an optional value, both presence and content.
    Optional { cond: String },
    /// `name`, or `name[cond]` where `cond` gates presence.
    Empty { toggler: Option<String> },
}

/// One head and body of a control construct.
pub struct Special {
    pub head: String,
    pub body: Block,
}

/// What the host evaluates once, ahead of rendering, for one dynamic piece.
pub enum Fragment {
    Splice { expr: String },
    /// A block that holds a `let`, rendered as one unit.
    Block { block: Block },
    Special { segments: Vec<Special> },
    /// ` name="value"` when `cond` yields `Some(value)`, else nothing.
    OptionalAttr { name: String, cond: String },
    /// ` name` when `cond` holds, else nothing.
    ToggledAttr { name: String, cond: String },
}

/// One piece of a flattened template.
pub enum Piece {
    /// Markup structure, appended as it is.
    Raw { text: String },
    /// Text of the template, HTML-escaped on output.
    Text { text: String },
    Dynamic { fragment: Fragment },
    Binding { tokens: String },
}

pub enum PieceView {
    Raw { text: Seq<char> },
    Text { text: Seq<char> },
    Dynamic { fragment: Fragment },
    Binding { tokens: String },
}

impl View for Piece {
    type V = PieceView;

    open spec fn view(&self) -> PieceView {
        match self {
            Piece::Raw { text } => PieceView::Raw { text: text@ },
            Piece::Text { text } => PieceView::Text { text: text@ },
            Piece::Dynamic { fragment } => PieceView::Dynamic { fragment: *fragment },
            Piece::Binding { tokens } => PieceView::Binding { tokens: *tokens },
        }
    }
}

pub open spec fn views(ps: Seq<Piece>) -> Seq<PieceView> {
    ps.map_values(|p: Piece| p@)
}

pub open spec fn raw(s: Seq<char>) -> PieceView {
    PieceView::Raw { text: s }
}

pub open spec fn text(s: Seq<char>) -> PieceView {
    PieceView::Text { text: s }
}

pub open spec fn dynamic(f: Fragment) -> PieceView {
    PieceView::Dynamic { fragment: f }
}

pub open spec fn has_let(ms: Seq<Markup>) -> bool {
    exists|i: int| 0 <= i < ms.len() && ms[i] is Let
}

/// The pieces of one markup, in left-to-right, depth-first order.
pub open spec fn pieces(m: Markup) -> Seq<PieceView>
    decreases m,
{
    match m {
        Markup::ParseError => Seq::empty(),
        Markup::Block { block } => {
            if has_let(block.markups@) {
                seq![dynamic(Fragment::Block { block })]
            } else {
                pieces_list(block.markups@)
            }
        },
        Markup::Literal { content } => seq![text(content@)],
        Markup::Symbol { symbol } => seq![text(symbol@)],
        Markup::Splice { expr } => seq![dynamic(Fragment::Splice { expr })],
        Markup::Element { name, attrs, body } => {
            let open = seq![raw(seq!['<']), text(name@)] + attrs_pieces(attrs@) + seq![
                raw(seq!['>']),
            ];
            match body {
                ElementBody::Void => open,
                ElementBody::Block { block } => open + pieces_list(block.markups@) + seq![
                    raw(seq!['<', '/']),
                    text(name@),
                    raw(seq!['>']),
                ],
            }
        },
        Markup::Let { tokens } => seq![PieceView::Binding { tokens }],
        Markup::Special { segments } => seq![dynamic(Fragment::Special { segments })],
    }
}

/// The pieces of a sequence of markups, one after the other.
pub open spec fn pieces_list(ms: Seq<Markup>) -> Seq<PieceView>
    decreases ms,
{
    if ms.len() == 0 {
        Seq::empty()
    } else {
        pieces_list(ms.drop_last()) + pieces(ms.last())
    }
}

pub open spec fn attrs_pieces(attrs: Seq<Attr>) -> Seq<PieceView>
    decreases attrs,
{
    if attrs.len() == 0 {
        Seq::empty()
    } else {
        attrs_pieces(attrs.drop_last()) + attr_pieces(attrs.last())
    }
}

pub open spec fn attr_pieces(a: Attr) -> Seq<PieceView>
    decreases a,
{
    match a.attr_type {
        AttrType::Normal { value } => seq![raw(seq![' ']), text(a.name@), raw(seq!['=', '"'])]
            + pieces(*value) + seq![raw(seq!['"'])],
        AttrType::Optional { cond } => seq![
            dynamic(Fragment::OptionalAttr { name: a.name, cond }),
        ],
        AttrType::Empty { toggler: None } => seq![raw(seq![' ']), text(a.name@)],
        AttrType::Empty { toggler: Some(cond) } => seq![
            dynamic(Fragment::ToggledAttr { name: a.name, cond }),
        ],
    }
}

} // verus!
