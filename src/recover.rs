use vstd::prelude::*;
use vstd::string::*;

use crate::runtime::{decimal, push_decimal};

verus! {

pub open spec fn is_opener(c: char) -> bool {
    c == '[' || c == '{' || c == '('
}

pub open spec fn is_closer(c: char) -> bool {
    c == ']' || c == '}' || c == ')'
}

/// Unicode White_Space, the set that `char::is_whitespace` tests.
pub open spec fn is_whitespace(c: char) -> bool {
    let u = c as u32;
    (9 <= u <= 13) || u == 32 || u == 0x85 || u == 0xA0 || u == 0x1680 || (0x2000 <= u <= 0x200A)
        || u == 0x2028 || u == 0x2029 || u == 0x202F || u == 0x205F || u == 0x3000
}

/// True when `s` holds a character other than whitespace.
pub open spec fn has_content(s: Seq<char>) -> bool {
    exists|i: int| 0 <= i < s.len() && !is_whitespace(#[trigger] s[i])
}

pub open spec fn occurs_at(line: Seq<char>, kw: Seq<char>, i: int) -> bool {
    0 <= i && i + kw.len() <= line.len() && line.subrange(i, i + kw.len()) == kw
}

/// The first position at or after `i` where `kw` occurs in `line`.
pub open spec fn find_from(line: Seq<char>, kw: Seq<char>, i: int) -> Option<int>
    decreases line.len() + 1 - i,
{
    if i < 0 || i + kw.len() > line.len() {
        None
    } else if occurs_at(line, kw, i) {
        Some(i)
    } else {
        find_from(line, kw, i + 1)
    }
}

/// The first line at or after `j` that holds `kw`.
pub open spec fn find_line(lines: Seq<String>, kw: Seq<char>, j: int) -> Option<int>
    decreases lines.len() - j,
{
    if j < 0 || j >= lines.len() {
        None
    } else if find_from(lines[j]@, kw, 0) is Some {
        Some(j)
    } else {
        find_line(lines, kw, j + 1)
    }
}

/// Where the text after the keyword starts on its line: past the keyword,
/// and past an opening bracket that follows it at once.
pub open spec fn body_start(line: Seq<char>, kw: Seq<char>, at: int) -> int {
    let s = at + kw.len();
    if s < line.len() && is_opener(line[s]) {
        s + 1
    } else {
        s
    }
}

/// Each line followed by a newline.
pub open spec fn lines_text(lines: Seq<String>) -> Seq<char>
    decreases lines.len(),
{
    if lines.len() == 0 {
        Seq::empty()
    } else {
        lines[0]@ + seq!['\n'] + lines_text(lines.drop_first())
    }
}

/// The text that the scan reads: from the start of the body on the first line
/// at or after `from` that holds `kw` to the end of the file; a lone newline
/// where no line holds it.
pub open spec fn stream(lines: Seq<String>, from: int, kw: Seq<char>) -> Seq<char> {
    match find_line(lines, kw, from) {
        Some(j) => {
            let line = lines[j]@;
            let start = body_start(line, kw, find_from(line, kw, 0)->0);
            line.subrange(start, line.len() as int) + seq!['\n'] + lines_text(
                lines.subrange(j + 1, lines.len() as int),
            )
        },
        None => seq!['\n'],
    }
}

/// Copies `s` up to the closing bracket that takes the bracket depth below
/// zero, which is left out.
pub open spec fn scan(s: Seq<char>, depth: nat) -> Seq<char>
    decreases s.len(),
{
    if s.len() == 0 {
        Seq::empty()
    } else if is_opener(s[0]) {
        seq![s[0]] + scan(s.drop_first(), depth + 1)
    } else if is_closer(s[0]) {
        if depth == 0 {
            Seq::empty()
        } else {
            seq![s[0]] + scan(s.drop_first(), (depth - 1) as nat)
        }
    } else {
        seq![s[0]] + scan(s.drop_first(), depth)
    }
}

/// The index of the line that a 1-based line number names (0 reads as 1).
pub open spec fn line_index(start_line: u32) -> int {
    if start_line == 0 {
        0
    } else {
        start_line - 1
    }
}

/// What recovery reads from `lines` for an invocation at `start_line`.
pub open spec fn recovered(lines: Seq<String>, start_line: u32, kw: Seq<char>) -> Seq<char> {
    scan(stream(lines, line_index(start_line), kw), 0)
}

pub enum RecoverError {
    /// No candidate file opened; the open errors, each followed by a newline.
    SourceNotFound { errors: String },
    /// The scan found only whitespace.
    EmptyRecovery,
}

/// The text of a recovery error.
pub open spec fn message_of(e: RecoverError) -> Seq<char> {
    match e {
        RecoverError::SourceNotFound { errors } => errors@,
        RecoverError::EmptyRecovery => "output is empty"@,
    }
}

impl RecoverError {
    pub fn message(&self) -> (r: String)
        ensures
            r@ == message_of(*self),
    {
        match self {
            RecoverError::SourceNotFound { errors } => errors.clone(),
            RecoverError::EmptyRecovery => String::from_str("output is empty"),
        }
    }
}

/// Relies on `FromIterator<&char>` for `String`: the string of the given characters, in order.
#[verifier::external_body]
fn string_from_chars(v: &Vec<char>) -> (r: String)
    ensures
        r@ == v@,
{
    v.iter().collect()
}

fn is_whitespace_char(c: char) -> (r: bool)
    ensures
        r == is_whitespace(c),
{
    let u = c as u32;
    (9 <= u && u <= 13) || u == 32 || u == 0x85 || u == 0xA0 || u == 0x1680 || (0x2000 <= u && u
        <= 0x200A) || u == 0x2028 || u == 0x2029 || u == 0x202F || u == 0x205F || u == 0x3000
}

fn content_in(v: &Vec<char>) -> (r: bool)
    ensures
        r == has_content(v@),
{
    let mut i: usize = 0;
    while i < v.len()
        invariant
            i <= v@.len(),
            forall|j: int| 0 <= j < i ==> is_whitespace(#[trigger] v@[j]),
        decreases v.len() - i,
    {
        if !is_whitespace_char(v[i]) {
            return true;
        }
        i = i + 1;
    }
    false
}

/// The first position where `kw` occurs in `line`.
pub fn find_keyword(line: &str, kw: &str) -> (r: Option<usize>)
    ensures
        r matches Some(i) ==> find_from(line@, kw@, 0) == Some(i as int),
        r is None ==> find_from(line@, kw@, 0) is None,
{
    let n = line.unicode_len();
    let m = kw.unicode_len();
    let mut i: usize = 0;
    while i <= n && n - i >= m
        invariant
            n == line@.len(),
            m == kw@.len(),
            find_from(line@, kw@, 0) == find_from(line@, kw@, i as int),
        decreases n - i,
    {
        let mut k: usize = 0;
        let mut same = true;
        while k < m
            invariant
                i + m <= n,
                k <= m,
                n == line@.len(),
                m == kw@.len(),
                same == (forall|t: int| 0 <= t < k ==> line@[i + t] == kw@[t]),
            decreases m - k,
        {
            if line.get_char(i + k) != kw.get_char(k) {
                same = false;
            }
            k = k + 1;
        }
        proof {
            if same {
                assert(line@.subrange(i as int, i + m) =~= kw@);
            } else {
                assert(!occurs_at(line@, kw@, i as int)) by {
                    let t = choose|t: int| 0 <= t < m && line@[i + t] != kw@[t];
                    assert(line@.subrange(i as int, i + m)[t] == line@[i + t]);
                }
            }
        }
        if same {
            return Some(i);
        }
        i = i + 1;
    }
    None
}

proof fn lemma_find_from_occurs(line: Seq<char>, kw: Seq<char>, i: int)
    ensures
        find_from(line, kw, i) matches Some(r) ==> occurs_at(line, kw, r) && r + kw.len()
            <= line.len(),
    decreases line.len() + 1 - i,
{
    if !(i < 0 || i + kw.len() > line.len()) && !occurs_at(line, kw, i) {
        lemma_find_from_occurs(line, kw, i + 1);
    }
}

/// What is left of the stream at position `pos` of line `k`.
pub open spec fn rest_text(lines: Seq<String>, k: int, pos: int) -> Seq<char> {
    lines[k]@.subrange(pos, lines[k]@.len() as int) + seq!['\n'] + lines_text(
        lines.subrange(k + 1, lines.len() as int),
    )
}

/// The body of the invocation at `start_line` in a file of `lines`: from the
/// first line at or after it that holds `skip_to_keyword`, the text after the
/// keyword (and after an opening bracket that follows it at once) up to the
/// matching closing bracket, left out, with a newline after each whole line.
pub fn recover_from_lines(lines: &Vec<String>, start_line: u32, skip_to_keyword: &str) -> (r: Result<
    String,
    RecoverError,
>)
    ensures
        has_content(recovered(lines@, start_line, skip_to_keyword@)) ==> (r matches Ok(s) && s@
            == recovered(lines@, start_line, skip_to_keyword@)),
        !has_content(recovered(lines@, start_line, skip_to_keyword@)) ==> r matches Err(
            RecoverError::EmptyRecovery,
        ),
{
    let ghost kw = skip_to_keyword@;
    let n = lines.len();
    let mut j: usize = if start_line == 0 {
        0
    } else {
        (start_line - 1) as usize
    };
    let ghost from = j as int;
    let mut found: Option<usize> = None;
    while j < n && found.is_none()
        invariant
            n == lines@.len(),
            kw == skip_to_keyword@,
            from == line_index(start_line),
            found is None ==> find_line(lines@, kw, from) == find_line(lines@, kw, j as int),
            found matches Some(p) ==> (j < n && find_line(lines@, kw, from) == Some(j as int)
                && find_from(lines@[j as int]@, kw, 0) == Some(p as int)),
        decreases (n - j) as int + if found is None { 1int } else { 0int },
    {
        proof {
            assert(find_line(lines@, kw, j as int) == if find_from(lines@[j as int]@, kw, 0) is Some {
                Some(j as int)
            } else {
                find_line(lines@, kw, j + 1)
            });
        }
        match find_keyword(lines[j].as_str(), skip_to_keyword) {
            Some(p) => {
                found = Some(p);
            },
            None => {
                j = j + 1;
            },
        }
    }
    let ghost strm = stream(lines@, from, kw);
    let mut out: Vec<char> = Vec::new();
    match found {
        None => {
            out.push('\n');
            proof {
                assert(find_line(lines@, kw, j as int) is None);
                assert(seq!['\n'].drop_first() =~= Seq::<char>::empty());
                assert(scan(Seq::<char>::empty(), 0) == Seq::<char>::empty());
                assert(out@ =~= scan(strm, 0));
            }
        },
        Some(p) => {
            let line = lines[j].as_str();
            let len = line.unicode_len();
            let m = skip_to_keyword.unicode_len();
            proof {
                lemma_find_from_occurs(lines@[j as int]@, kw, 0);
            }
            let mut pos = p + m;
            if pos < len {
                let c = line.get_char(pos);
                if c == '[' || c == '{' || c == '(' {
                    pos = pos + 1;
                }
            }
            let mut depth: usize = 0;
            let mut stopped = false;
            let mut k = j;
            proof {
                assert(strm =~= rest_text(lines@, k as int, pos as int));
            }
            while k < n && !stopped
                invariant
                    n == lines@.len(),
                    j <= k <= n,
                    k < n ==> pos <= lines@[k as int]@.len(),
                    !stopped && k < n ==> out@ + scan(rest_text(lines@, k as int, pos as int), depth as nat)
                        == scan(strm, 0),
                    stopped || k == n ==> out@ == scan(strm, 0),
                    depth <= out@.len(),
                decreases n - k, if k < n { lines@[k as int]@.len() - pos } else { 0 },
            {
                let cur = lines[k].as_str();
                let clen = cur.unicode_len();
                let ghost rt = rest_text(lines@, k as int, pos as int);
                if pos < clen {
                    let c = cur.get_char(pos);
                    proof {
                        assert(rt[0] == c);
                        assert(rt.drop_first() =~= rest_text(lines@, k as int, pos + 1));
                    }
                    if c == '[' || c == '{' || c == '(' {
                        out.push(c);
                        let ol = out.len();
                        assert(depth < ol);
                        depth = depth + 1;
                    } else if c == ']' || c == '}' || c == ')' {
                        if depth == 0 {
                            assert(scan(rt, 0) == Seq::<char>::empty());
                            stopped = true;
                        } else {
                            depth = depth - 1;
                            out.push(c);
                        }
                    } else {
                        out.push(c);
                    }
                    pos = pos + 1;
                } else {
                    out.push('\n');
                    proof {
                        let later = lines@.subrange(k + 1, n as int);
                        assert(rt =~= seq!['\n'] + lines_text(later));
                        assert(rt.drop_first() =~= lines_text(later));
                        if k + 1 < n {
                            assert(later[0] == lines@[k + 1]);
                            assert(later.drop_first() =~= lines@.subrange(k + 2, n as int));
                            assert(lines_text(later) =~= rest_text(lines@, k + 1, 0));
                        } else {
                            assert(later.len() == 0);
                            assert(lines_text(later) == Seq::<char>::empty());
                            assert(scan(Seq::<char>::empty(), depth as nat) == Seq::<char>::empty());
                            assert(rt.drop_first() =~= Seq::<char>::empty());
                        }
                    }
                    k = k + 1;
                    pos = 0;
                }
            }
        },
    }
    proof {
        assert(out@ == recovered(lines@, start_line, kw));
    }
    if content_in(&out) {
        Ok(string_from_chars(&out))
    } else {
        Err(RecoverError::EmptyRecovery)
    }
}

/// The open errors among `attempts`, each followed by a newline.
pub open spec fn error_text(attempts: Seq<Result<Vec<String>, String>>) -> Seq<char>
    decreases attempts.len(),
{
    if attempts.len() == 0 {
        Seq::empty()
    } else {
        error_text(attempts.drop_last()) + match attempts.last() {
            Ok(_) => Seq::empty(),
            Err(e) => e@ + seq!['\n'],
        }
    }
}

/// The first attempt at or after `i` that opened a file.
pub open spec fn first_opened(attempts: Seq<Result<Vec<String>, String>>, i: int) -> Option<int>
    decreases attempts.len() - i,
{
    if i < 0 || i >= attempts.len() {
        None
    } else if attempts[i] is Ok {
        Some(i)
    } else {
        first_opened(attempts, i + 1)
    }
}

/// Recovery over the candidate files, tried in order: each attempt holds the
/// lines of a file that opened, or the error of one that did not. The first
/// file that opened is scanned; where none did, the error holds every open
/// error, each followed by a newline.
pub fn recover(attempts: &Vec<Result<Vec<String>, String>>, start_line: u32, skip_to_keyword: &str) -> (r:
    Result<String, RecoverError>)
    ensures
        first_opened(attempts@, 0) matches Some(i) ==> ({
            let lines = attempts@[i]->Ok_0@;
            let text = recovered(lines, start_line, skip_to_keyword@);
            &&& has_content(text) ==> (r matches Ok(s) && s@ == text)
            &&& !has_content(text) ==> r matches Err(RecoverError::EmptyRecovery)
        }),
        first_opened(attempts@, 0) is None ==> (r matches Err(
            RecoverError::SourceNotFound { errors },
        ) && errors@ == error_text(attempts@)),
{
    let mut errors = String::new();
    let mut i: usize = 0;
    while i < attempts.len()
        invariant
            i <= attempts@.len(),
            first_opened(attempts@, 0) == first_opened(attempts@, i as int),
            errors@ == error_text(attempts@.subrange(0, i as int)),
        decreases attempts.len() - i,
    {
        proof {
            reveal_strlit("\n");
            assert("\n"@ =~= seq!['\n']);
            assert(attempts@.subrange(0, i + 1).drop_last() =~= attempts@.subrange(0, i as int));
        }
        match &attempts[i] {
            Ok(lines) => {
                return recover_from_lines(lines, start_line, skip_to_keyword);
            },
            Err(e) => {
                errors.append(e.as_str());
                errors.append("\n");
            },
        }
        proof {
            assert(errors@ =~= error_text(attempts@.subrange(0, i + 1)));
        }
        i = i + 1;
    }
    proof {
        assert(attempts@.subrange(0, i as int) =~= attempts@);
    }
    Err(RecoverError::SourceNotFound { errors })
}

/// The message that a strict-mode invocation aborts with: where it stands,
/// what was searched for, and why recovery failed.
pub open spec fn fatal_text(file_path: Seq<char>, start_line: u32, kw: Seq<char>, e: RecoverError) -> Seq<char> {
    "failed to find sourcecode for "@ + file_path + ":"@ + decimal(start_line as nat)
        + ", scanning for: \""@ + kw + "\", error: "@ + message_of(e)
}

/// What a hot-reload invocation renders from.
pub enum SourceChoice {
    /// The text recovered from the file as it is now.
    Recovered { text: String },
    /// The text as it was compiled, rendered by the static path.
    Compiled,
    /// Recovery failed in strict mode: the invocation aborts with this message.
    Fatal { message: String },
}

/// Picks the source of a hot-reload rendering for the invocation at
/// `start_line` of `file_path`: the recovered text where recovery succeeded;
/// else, in strict mode, a fatal error, and otherwise the compiled text.
pub fn choose_source(
    recovered: Result<String, RecoverError>,
    strict_source_recovery: bool,
    file_path: &str,
    start_line: u32,
    skip_to_keyword: &str,
) -> (r: SourceChoice)
    ensures
        recovered matches Ok(t) ==> r == (SourceChoice::Recovered { text: t }),
        recovered matches Err(e) ==> (strict_source_recovery ==> (r matches SourceChoice::Fatal {
            message,
        } && message@ == fatal_text(file_path@, start_line, skip_to_keyword@, e))),
        recovered is Err && !strict_source_recovery ==> r is Compiled,
{
    match recovered {
        Ok(text) => SourceChoice::Recovered { text },
        Err(error) => {
            if strict_source_recovery {
                let mut message = String::from_str("failed to find sourcecode for ");
                message.append(file_path);
                message.append(":");
                push_decimal(start_line as usize, &mut message);
                message.append(", scanning for: \"");
                message.append(skip_to_keyword);
                message.append("\", error: ");
                let m = error.message();
                message.append(m.as_str());
                proof {
                    assert(message@ =~= fatal_text(file_path@, start_line, skip_to_keyword@, error));
                }
                SourceChoice::Fatal { message }
            } else {
                SourceChoice::Compiled
            }
        },
    }
}

} // verus!
