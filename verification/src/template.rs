//! The template compiler: turns a format string with `%{name}` placeholders
//! into an ordered token sequence, validating every placeholder name at
//! compile time. Text outside placeholders is kept verbatim, each stretch
//! between two placeholders as one literal token.

use vstd::prelude::*;

use crate::record::FieldRef;
use crate::text::range_to_string;
use crate::text::seg_eq;
use crate::text::str_to_chars;

verus! {

/// One compiled unit of a template: verbatim text, or a reference to one
/// record field.
#[derive(Clone, PartialEq, Eq, Debug)]
pub enum Token {
    Literal(String),
    Placeholder(FieldRef),
}

/// The mathematical shape of a token: literal text as a character sequence.
pub enum TokenV {
    Literal(Seq<char>),
    Placeholder(FieldRef),
}

impl View for Token {
    type V = TokenV;

    open spec fn view(&self) -> TokenV {
        match self {
            Token::Literal(s) => TokenV::Literal(s@),
            Token::Placeholder(f) => TokenV::Placeholder(*f),
        }
    }
}

/// Why a format string was rejected.
#[derive(Clone, PartialEq, Eq, Debug)]
pub enum TemplateError {
    /// An opening `%{` at this character offset has no closing `}`.
    UnterminatedPlaceholder(usize),
    /// A placeholder names no field of a playback record.
    UnknownField(String),
}

/// The mathematical shape of a template error.
pub enum TemplateErrV {
    UnterminatedPlaceholder(int),
    UnknownField(Seq<char>),
}

impl View for TemplateError {
    type V = TemplateErrV;

    open spec fn view(&self) -> TemplateErrV {
        match self {
            TemplateError::UnterminatedPlaceholder(o) => TemplateErrV::UnterminatedPlaceholder(
                *o as int,
            ),
            TemplateError::UnknownField(n) => TemplateErrV::UnknownField(n@),
        }
    }
}

/// A validated template: the ordered tokens the renderer walks. One of
/// these exists only for format strings that compiled without error.
#[derive(Clone, PartialEq, Eq, Debug)]
pub struct CompiledTemplate {
    pub tokens: Vec<Token>,
}

pub open spec fn toks_view(ts: Seq<Token>) -> Seq<TokenV> {
    ts.map_values(|t: Token| t@)
}

impl View for CompiledTemplate {
    type V = Seq<TokenV>;

    open spec fn view(&self) -> Seq<TokenV> {
        toks_view(self.tokens@)
    }
}

/// Index of the first `%{` at or after `i`, or `s.len()` if there is none.
pub open spec fn ph_start(s: Seq<char>, i: int) -> int
    recommends
        0 <= i <= s.len(),
    decreases s.len() - i,
{
    if i + 1 >= s.len() {
        s.len() as int
    } else if s[i] == '%' && s[i + 1] == '{' {
        i
    } else {
        ph_start(s, i + 1)
    }
}

/// Index of the first `}` at or after `i`, or `s.len()` if there is none.
pub open spec fn close_brace(s: Seq<char>, i: int) -> int
    recommends
        0 <= i <= s.len(),
    decreases s.len() - i,
{
    if i >= s.len() {
        s.len() as int
    } else if s[i] == '}' {
        i
    } else {
        close_brace(s, i + 1)
    }
}

/// The record field a placeholder name denotes, if any: the closed set is
/// `status`, `position`, `duration`, `title`, `artist`, `album`.
pub open spec fn field_of_name(name: Seq<char>) -> Option<FieldRef> {
    if name == "status"@ {
        Option::Some(FieldRef::Status)
    } else if name == "position"@ {
        Option::Some(FieldRef::Position)
    } else if name == "duration"@ {
        Option::Some(FieldRef::Duration)
    } else if name == "title"@ {
        Option::Some(FieldRef::Title)
    } else if name == "artist"@ {
        Option::Some(FieldRef::Artist)
    } else if name == "album"@ {
        Option::Some(FieldRef::Album)
    } else {
        Option::None
    }
}

/// The first `%{` lies between `i` and the end, opens a placeholder when
/// within the text, and nothing before it opens one.
pub proof fn lemma_ph_start_bounds(s: Seq<char>, i: int)
    requires
        0 <= i <= s.len(),
    ensures
        i <= ph_start(s, i) <= s.len(),
        ph_start(s, i) < s.len() ==> ph_start(s, i) + 1 < s.len() && s[ph_start(s, i)] == '%'
            && s[ph_start(s, i) + 1] == '{',
    decreases s.len() - i,
{
    if i + 1 >= s.len() {
    } else if s[i] == '%' && s[i + 1] == '{' {
    } else {
        lemma_ph_start_bounds(s, i + 1);
    }
}

/// A scan from `i` that saw no `%{` before `j`, and one (or the end) at
/// `j`, found the first `%{`.
pub proof fn lemma_ph_start_at(s: Seq<char>, i: int, j: int)
    requires
        0 <= i <= j <= s.len(),
        forall|k: int|
            i <= k < j ==> !(#[trigger] s[k] == '%' && k + 1 < s.len() && s[k + 1] == '{'),
        j == s.len() || (s[j] == '%' && j + 1 < s.len() && s[j + 1] == '{'),
    ensures
        ph_start(s, i) == j,
    decreases j - i,
{
    if i < j {
        lemma_ph_start_at(s, i + 1, j);
    }
}

/// The first closing brace lies between `i` and the end, is a `}` when
/// within the text, and nothing before it is one.
pub proof fn lemma_close_brace_bounds(s: Seq<char>, i: int)
    requires
        0 <= i <= s.len(),
    ensures
        i <= close_brace(s, i) <= s.len(),
        close_brace(s, i) < s.len() ==> s[close_brace(s, i)] == '}',
    decreases s.len() - i,
{
    if i < s.len() && s[i] != '}' {
        lemma_close_brace_bounds(s, i + 1);
    }
}

/// A scan from `i` that saw no `}` before `j`, and one (or the end) at
/// `j`, found the first `}`.
pub proof fn lemma_close_brace_at(s: Seq<char>, i: int, j: int)
    requires
        0 <= i <= j <= s.len(),
        forall|k: int| i <= k < j ==> #[trigger] s[k] != '}',
        j == s.len() || s[j] == '}',
    ensures
        close_brace(s, i) == j,
    decreases j - i,
{
    if i < j {
        lemma_close_brace_at(s, i + 1, j);
    }
}

/// What compiling the tail of `s` from position `i` yields: the literal up
/// to the next `%{` (if non-empty), then the placeholder, then the rest;
/// an unterminated `%{` or an unknown name is the first error met.
pub open spec fn compile_from(s: Seq<char>, i: int) -> Result<Seq<TokenV>, TemplateErrV>
    recommends
        0 <= i <= s.len(),
    decreases s.len() - i,
        when 0 <= i <= s.len()
        via compile_from_dec
{
    let j = ph_start(s, i);
    let lit: Seq<TokenV> = if i < j {
        seq![TokenV::Literal(s.subrange(i, j))]
    } else {
        seq![]
    };
    if j == s.len() {
        Ok(lit)
    } else {
        let k = close_brace(s, j + 2);
        if k == s.len() {
            Err(TemplateErrV::UnterminatedPlaceholder(j))
        } else {
            match field_of_name(s.subrange(j + 2, k)) {
                Option::None => Err(TemplateErrV::UnknownField(s.subrange(j + 2, k))),
                Option::Some(f) => match compile_from(s, k + 1) {
                    Err(e) => Err(e),
                    Ok(toks) => Ok(lit + seq![TokenV::Placeholder(f)] + toks),
                },
            }
        }
    }
}

#[via_fn]
proof fn compile_from_dec(s: Seq<char>, i: int) {
    lemma_ph_start_bounds(s, i);
    let j = ph_start(s, i);
    if j < s.len() {
        lemma_close_brace_bounds(s, j + 2);
    }
}

/// What `compile` returns on the format string `s`.
pub open spec fn compile_spec(s: Seq<char>) -> Result<Seq<TokenV>, TemplateErrV> {
    compile_from(s, 0)
}

/// Looks a placeholder name `v[a..b]` up in the closed field set.
fn field_of_name_exec(v: &Vec<char>, a: usize, b: usize) -> (r: Option<FieldRef>)
    requires
        a <= b <= v@.len(),
    ensures
        r == field_of_name(v@.subrange(a as int, b as int)),
{
    if seg_eq(v, a, b, "status") {
        Some(FieldRef::Status)
    } else if seg_eq(v, a, b, "position") {
        Some(FieldRef::Position)
    } else if seg_eq(v, a, b, "duration") {
        Some(FieldRef::Duration)
    } else if seg_eq(v, a, b, "title") {
        Some(FieldRef::Title)
    } else if seg_eq(v, a, b, "artist") {
        Some(FieldRef::Artist)
    } else if seg_eq(v, a, b, "album") {
        Some(FieldRef::Album)
    } else {
        None
    }
}

/// Compiles a format string into a template.
///
/// The result is exactly `compile_spec` of the string: the token sequence
/// on success, or the first error — `UnterminatedPlaceholder` with the
/// character offset of the unmatched `%{`, or `UnknownField` with the
/// offending name.
pub fn compile(fmt: String) -> (r: Result<CompiledTemplate, TemplateError>)
    ensures
        match r {
            Ok(t) => compile_spec(fmt@) == Ok::<Seq<TokenV>, TemplateErrV>(t@),
            Err(e) => compile_spec(fmt@) == Err::<Seq<TokenV>, TemplateErrV>(e@),
        },
{
    let v = str_to_chars(fmt.as_str());
    let ghost s = fmt@;
    let n = v.len();
    let mut tokens: Vec<Token> = Vec::new();
    let mut pos: usize = 0;
    proof {
        assert(toks_view(tokens@) =~= Seq::<TokenV>::empty());
    }
    while pos < n
        invariant
            s == fmt@,
            v@ == s,
            n == s.len(),
            0 <= pos <= n,
            compile_from(s, 0) == (match compile_from(s, pos as int) {
                Ok(ts) => Ok::<Seq<TokenV>, TemplateErrV>(toks_view(tokens@) + ts),
                Err(e) => Err::<Seq<TokenV>, TemplateErrV>(e),
            }),
        decreases n - pos,
    {
        let mut j: usize = pos;
        while j < n && !(v[j] == '%' && j + 1 < n && v[j + 1] == '{')
            invariant
                v@ == s,
                n == s.len(),
                pos <= j <= n,
                forall|k: int|
                    pos <= k < j ==> !(#[trigger] s[k] == '%' && k + 1 < s.len() && s[k + 1]
                        == '{'),
            decreases n - j,
        {
            j = j + 1;
        }
        proof {
            lemma_ph_start_at(s, pos as int, j as int);
        }
        let ghost lit: Seq<TokenV> = if pos < j {
            seq![TokenV::Literal(s.subrange(pos as int, j as int))]
        } else {
            seq![]
        };
        if j == n {
            let ghost base = tokens@;
            if pos < j {
                let text = range_to_string(&v, pos, j);
                tokens.push(Token::Literal(text));
            }
            proof {
                assert(toks_view(tokens@) =~= toks_view(base) + lit);
                assert(compile_from(s, j as int) == Ok::<Seq<TokenV>, TemplateErrV>(
                    Seq::<TokenV>::empty(),
                ));
                assert(toks_view(tokens@) + Seq::<TokenV>::empty() =~= toks_view(tokens@));
            }
            pos = j;
        } else {
            // v[j] opens a placeholder; find its closing brace.
            let mut k: usize = j + 2;
            while k < n && v[k] != '}'
                invariant
                    v@ == s,
                    n == s.len(),
                    j + 2 <= k <= n,
                    forall|m: int| j + 2 <= m < k ==> #[trigger] s[m] != '}',
                decreases n - k,
            {
                k = k + 1;
            }
            proof {
                lemma_close_brace_at(s, j + 2, k as int);
            }
            if k == n {
                return Err(TemplateError::UnterminatedPlaceholder(j));
            }
            match field_of_name_exec(&v, j + 2, k) {
                None => {
                    let name = range_to_string(&v, j + 2, k);
                    return Err(TemplateError::UnknownField(name));
                },
                Some(f) => {
                    let ghost base = tokens@;
                    if pos < j {
                        let text = range_to_string(&v, pos, j);
                        tokens.push(Token::Literal(text));
                    }
                    proof {
                        assert(toks_view(tokens@) =~= toks_view(base) + lit);
                    }
                    let ghost mid = tokens@;
                    tokens.push(Token::Placeholder(f));
                    proof {
                        assert(toks_view(tokens@) =~= toks_view(mid) + seq![
                            TokenV::Placeholder(f),
                        ]);
                        match compile_from(s, k + 1) {
                            Ok(ts) => {
                                assert(toks_view(tokens@) + ts =~= toks_view(base) + (lit + seq![
                                    TokenV::Placeholder(f),
                                ] + ts));
                            },
                            Err(_) => {},
                        }
                    }
                    pos = k + 1;
                },
            }
        }
    }
    proof {
        assert(compile_from(s, n as int) == Ok::<Seq<TokenV>, TemplateErrV>(
            Seq::<TokenV>::empty(),
        ));
        assert(toks_view(tokens@) + Seq::<TokenV>::empty() =~= toks_view(tokens@));
    }
    Ok(CompiledTemplate { tokens })
}

} // verus!
