use vstd::prelude::*;
use vstd::string::*;

verus! {

/// True of the four characters that carry meaning in HTML text.
pub open spec fn is_html_special(c: char) -> bool {
    c == '&' || c == '<' || c == '>' || c == '"'
}

/// What one character becomes in escaped HTML text.
pub open spec fn escape_char(c: char) -> Seq<char> {
    if c == '&' {
        seq!['&', 'a', 'm', 'p', ';']
    } else if c == '<' {
        seq!['&', 'l', 't', ';']
    } else if c == '>' {
        seq!['&', 'g', 't', ';']
    } else if c == '"' {
        seq!['&', 'q', 'u', 'o', 't', ';']
    } else {
        seq![c]
    }
}

/// HTML escaping: each character replaced by `escape_char` of it.
pub open spec fn escape_html(s: Seq<char>) -> Seq<char>
    decreases s.len(),
{
    if s.len() == 0 {
        Seq::empty()
    } else {
        escape_html(s.drop_last()) + escape_char(s.last())
    }
}

/// True of the three characters that carry meaning in a format template.
pub open spec fn is_format_special(c: char) -> bool {
    c == '\\' || c == '{' || c == '}'
}

/// Format-template escaping: a backslash goes before each of `\`, `{`, `}`.
pub open spec fn escape_format(s: Seq<char>) -> Seq<char>
    decreases s.len(),
{
    if s.len() == 0 {
        Seq::empty()
    } else if is_format_special(s.last()) {
        escape_format(s.drop_last()) + seq!['\\', s.last()]
    } else {
        escape_format(s.drop_last()) + seq![s.last()]
    }
}

/// Appends the HTML-escaped form of `input` to `output`.
pub fn escape_to_string(input: &str, output: &mut String)
    ensures
        final(output)@ == old(output)@ + escape_html(input@),
{
    let n = input.unicode_len();
    let mut i: usize = 0;
    while i < n
        invariant
            n == input@.len(),
            i <= n,
            output@ == old(output)@ + escape_html(input@.subrange(0, i as int)),
        decreases n - i,
    {
        let c = input.get_char(i);
        proof {
            reveal_strlit("&amp;");
            reveal_strlit("&lt;");
            reveal_strlit("&gt;");
            reveal_strlit("&quot;");
            assert(input@.subrange(0, i + 1).drop_last() =~= input@.subrange(0, i as int));
        }
        if c == '&' {
            output.append("&amp;");
        } else if c == '<' {
            output.append("&lt;");
        } else if c == '>' {
            output.append("&gt;");
        } else if c == '"' {
            output.append("&quot;");
        } else {
            let one = input.substring_char(i, i + 1);
            proof {
                assert(one@ =~= seq![c]);
            }
            output.append(one);
        }
        proof {
            assert(output@ =~= old(output)@ + escape_html(input@.subrange(0, i + 1)));
        }
        i = i + 1;
    }
    proof {
        assert(input@.subrange(0, n as int) =~= input@);
    }
}

/// Returns `input` with a backslash before each `\`, `{` and `}`.
pub fn escape_format_to_string(input: &str) -> (r: String)
    ensures
        r@ == escape_format(input@),
{
    let mut output = String::new();
    let n = input.unicode_len();
    let mut i: usize = 0;
    while i < n
        invariant
            n == input@.len(),
            i <= n,
            output@ == escape_format(input@.subrange(0, i as int)),
        decreases n - i,
    {
        let c = input.get_char(i);
        proof {
            reveal_strlit("\\");
            assert(input@.subrange(0, i + 1).drop_last() =~= input@.subrange(0, i as int));
        }
        if c == '\\' || c == '{' || c == '}' {
            output.append("\\");
        }
        let one = input.substring_char(i, i + 1);
        proof {
            assert(one@ =~= seq![c]);
        }
        output.append(one);
        proof {
            assert(output@ =~= escape_format(input@.subrange(0, i + 1)));
        }
        i = i + 1;
    }
    proof {
        assert(input@.subrange(0, n as int) =~= input@);
    }
    output
}

/// Escaping never shortens, and lengthens any text that holds a special character.
pub proof fn lemma_escape_len(s: Seq<char>)
    ensures
        escape_html(s).len() >= s.len(),
        (exists|i: int| 0 <= i < s.len() && is_html_special(#[trigger] s[i])) ==> escape_html(
            s,
        ).len() > s.len(),
        (exists|i: int| 0 <= i < s.len() && is_html_special(#[trigger] s[i])) ==> escape_html(
            s,
        ).contains('&'),
    decreases s.len(),
{
    if s.len() > 0 {
        let p = s.drop_last();
        lemma_escape_len(p);
        let e = escape_char(s.last());
        if exists|i: int| 0 <= i < s.len() && is_html_special(#[trigger] s[i]) {
            let i = choose|i: int| 0 <= i < s.len() && is_html_special(#[trigger] s[i]);
            if i < s.len() - 1 {
                assert(is_html_special(p[i]));
                let j = choose|j: int| 0 <= j < escape_html(p).len() && escape_html(p)[j] == '&';
                assert(escape_html(s)[j] == '&');
            } else {
                assert(escape_html(s)[escape_html(p).len() as int] == e[0]);
            }
        }
    }
}

/// Escaping is not idempotent: a text that holds `&`, `<`, `>` or `"` escapes
/// to something else the second time.
pub proof fn lemma_escape_twice_differs(t: Seq<char>)
    requires
        exists|i: int| 0 <= i < t.len() && is_html_special(#[trigger] t[i]),
    ensures
        escape_html(escape_html(t)) != escape_html(t),
{
    lemma_escape_len(t);
    let e = escape_html(t);
    let j = choose|j: int| 0 <= j < e.len() && e[j] == '&';
    assert(is_html_special(e[j]));
    lemma_escape_len(e);
}

} // verus!
