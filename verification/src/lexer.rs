//! Splitting template text into tokens: runs of text and `{...}` tags.
use vstd::prelude::*;
use crate::error::{ParseError, ParseErrorV};
use crate::text::{
    chars_of, find_in_range, first_index, lemma_first_index, push_char, range_equals,
    range_starts_with, starts_with, string_of_range, trim, trim_range,
};

verus! {

broadcast use vstd::string::group_string_axioms;

/// A token of a template.
#[derive(Debug, Clone, PartialEq)]
pub enum Token {
    /// Literal text.
    Text(String),
    /// `{#if var}` or, negated, `{#if !var}`.
    OpenIf(String, bool),
    /// `{:else}`.
    Else,
    /// `{/if}`.
    CloseIf,
    /// `{#each var}`.
    OpenEach(String),
    /// `{/each}`.
    CloseEach,
    /// `{path}` or `{path|filter}`.
    Variable(String, Option<String>),
}

/// What a token holds.
pub enum TokenV {
    Text(Seq<char>),
    OpenIf(Seq<char>, bool),
    Else,
    CloseIf,
    OpenEach(Seq<char>),
    CloseEach,
    Variable(Seq<char>, Option<Seq<char>>),
}

impl View for Token {
    type V = TokenV;

    open spec fn view(&self) -> TokenV {
        match self {
            Token::Text(t) => TokenV::Text(t@),
            Token::OpenIf(v, n) => TokenV::OpenIf(v@, *n),
            Token::Else => TokenV::Else,
            Token::CloseIf => TokenV::CloseIf,
            Token::OpenEach(v) => TokenV::OpenEach(v@),
            Token::CloseEach => TokenV::CloseEach,
            Token::Variable(p, f) => TokenV::Variable(
                p@,
                match f {
                    Some(f) => Some(f@),
                    None => None,
                },
            ),
        }
    }
}

/// The views of a sequence of tokens.
pub open spec fn tokens_view(ts: Seq<Token>) -> Seq<TokenV> {
    ts.map_values(|t: Token| t@)
}

pub open spec fn kw_if() -> Seq<char> {
    seq!['#', 'i', 'f', ' ']
}

pub open spec fn kw_each() -> Seq<char> {
    seq!['#', 'e', 'a', 'c', 'h', ' ']
}

pub open spec fn kw_close_if() -> Seq<char> {
    seq!['/', 'i', 'f']
}

pub open spec fn kw_close_each() -> Seq<char> {
    seq!['/', 'e', 'a', 'c', 'h']
}

pub open spec fn kw_else() -> Seq<char> {
    seq![':', 'e', 'l', 's', 'e']
}

/// The token that the content of a tag (what stands between `{` and `}`) stands for.
pub open spec fn classify_tag(content: Seq<char>) -> Result<TokenV, ParseErrorV> {
    let tag = trim(content);
    if starts_with(tag, kw_if()) {
        let rest = trim(tag.skip(4));
        if rest.len() > 0 && rest[0] == '!' {
            Ok(TokenV::OpenIf(trim(rest.skip(1)), true))
        } else {
            Ok(TokenV::OpenIf(rest, false))
        }
    } else if tag == kw_close_if() {
        Ok(TokenV::CloseIf)
    } else if tag == kw_else() {
        Ok(TokenV::Else)
    } else if starts_with(tag, kw_each()) {
        Ok(TokenV::OpenEach(trim(tag.skip(6))))
    } else if tag == kw_close_each() {
        Ok(TokenV::CloseEach)
    } else if tag.len() == 0 {
        Err(ParseErrorV::InvalidSyntax("empty tag"@))
    } else {
        match first_index(tag, '|') {
            Some(k) => Ok(TokenV::Variable(trim(tag.take(k)), Some(trim(tag.skip(k + 1))))),
            None => Ok(TokenV::Variable(tag, None)),
        }
    }
}

/// The run of literal text that starts at `i`: the characters it stands for
/// (`{{` standing for `{` and `}}` for `}`), and where it ends. It ends at the
/// end of `s` or at a `{` that opens a tag.
pub open spec fn text_run(s: Seq<char>, i: int) -> (Seq<char>, int)
    decreases s.len() - i,
{
    if i < 0 || i >= s.len() {
        (seq![], i)
    } else if s[i] == '{' {
        if i + 1 < s.len() && s[i + 1] == '{' {
            let r = text_run(s, i + 2);
            (seq!['{'] + r.0, r.1)
        } else {
            (seq![], i)
        }
    } else if s[i] == '}' && i + 1 < s.len() && s[i + 1] == '}' {
        let r = text_run(s, i + 2);
        (seq!['}'] + r.0, r.1)
    } else {
        let r = text_run(s, i + 1);
        (seq![s[i]] + r.0, r.1)
    }
}

/// The tokens of `s` from position `i` on.
pub open spec fn lex_from(s: Seq<char>, i: int) -> Result<Seq<TokenV>, ParseErrorV>
    decreases s.len() - i,
{
    let run = text_run(s, i);
    let head: Seq<TokenV> = if run.0.len() > 0 {
        seq![TokenV::Text(run.0)]
    } else {
        seq![]
    };
    let e = run.1;
    if !(i <= e && e < s.len()) {
        Ok(head)
    } else {
        match first_index(s.subrange(e + 1, s.len() as int), '}') {
            None => Err(ParseErrorV::InvalidSyntax("unclosed tag, expected '}'"@)),
            Some(d) => match classify_tag(s.subrange(e + 1, e + 1 + d)) {
                Err(err) => Err(err),
                Ok(tok) => if 0 <= d && e + d + 2 <= s.len() {
                    match lex_from(s, e + d + 2) {
                        Ok(rest) => Ok(head + seq![tok] + rest),
                        Err(err) => Err(err),
                    }
                } else {
                    Ok(head)
                },
            },
        }
    }
}

/// The tokens of a whole template.
pub open spec fn lex(s: Seq<char>) -> Result<Seq<TokenV>, ParseErrorV> {
    lex_from(s, 0)
}

/// `ts` in front of the tokens of a successful result.
pub open spec fn tokens_then(ts: Seq<TokenV>, r: Result<Seq<TokenV>, ParseErrorV>) -> Result<
    Seq<TokenV>,
    ParseErrorV,
> {
    match r {
        Ok(x) => Ok(ts + x),
        Err(e) => Err(e),
    }
}

/// A text run ends where it starts or later, within `s`, at the end or at a tag's `{`.
pub proof fn lemma_text_run_end(s: Seq<char>, i: int)
    requires
        0 <= i <= s.len(),
    ensures
        i <= text_run(s, i).1 <= s.len(),
        text_run(s, i).1 < s.len() ==> s[text_run(s, i).1] == '{',
    decreases s.len() - i,
{
    if i < s.len() {
        if s[i] == '{' {
            if i + 1 < s.len() && s[i + 1] == '{' {
                lemma_text_run_end(s, i + 2);
            }
        } else if s[i] == '}' && i + 1 < s.len() && s[i + 1] == '}' {
            lemma_text_run_end(s, i + 2);
        } else {
            lemma_text_run_end(s, i + 1);
        }
    }
}

/// The token for the tag content `v[lo..hi]`.
pub fn classify_range(v: &Vec<char>, lo: usize, hi: usize) -> (r: Result<Token, ParseError>)
    requires
        lo <= hi <= v@.len(),
    ensures
        match classify_tag(v@.subrange(lo as int, hi as int)) {
            Ok(t) => r is Ok && r->Ok_0@ == t,
            Err(e) => r is Err && r->Err_0@ == e,
        },
{
    let ghost content = v@.subrange(lo as int, hi as int);
    let (a, b) = trim_range(v, lo, hi);
    let ghost tag = v@.subrange(a as int, b as int);
    assert(tag == trim(content));
    let kw_if_lit: [char; 4] = ['#', 'i', 'f', ' '];
    let kw_each_lit: [char; 6] = ['#', 'e', 'a', 'c', 'h', ' '];
    let kw_close_if_lit: [char; 3] = ['/', 'i', 'f'];
    let kw_close_each_lit: [char; 5] = ['/', 'e', 'a', 'c', 'h'];
    let kw_else_lit: [char; 5] = [':', 'e', 'l', 's', 'e'];
    assert(kw_if_lit@ =~= kw_if());
    assert(kw_each_lit@ =~= kw_each());
    assert(kw_close_if_lit@ =~= kw_close_if());
    assert(kw_close_each_lit@ =~= kw_close_each());
    assert(kw_else_lit@ =~= kw_else());
    if range_starts_with(v, a, b, kw_if_lit.as_slice()) {
        assert(tag.skip(4) =~= v@.subrange(a + 4, b as int));
        let (c, d) = trim_range(v, a + 4, b);
        let ghost rest = v@.subrange(c as int, d as int);
        if c < d && v[c] == '!' {
            assert(rest[0] == v@[c as int]);
            assert(rest.skip(1) =~= v@.subrange(c + 1, d as int));
            let (e, f) = trim_range(v, c + 1, d);
            Ok(Token::OpenIf(string_of_range(v, e, f), true))
        } else {
            assert(rest.len() > 0 ==> rest[0] == v@[c as int]);
            Ok(Token::OpenIf(string_of_range(v, c, d), false))
        }
    } else if range_equals(v, a, b, kw_close_if_lit.as_slice()) {
        Ok(Token::CloseIf)
    } else if range_equals(v, a, b, kw_else_lit.as_slice()) {
        Ok(Token::Else)
    } else if range_starts_with(v, a, b, kw_each_lit.as_slice()) {
        assert(tag.skip(6) =~= v@.subrange(a + 6, b as int));
        let (c, d) = trim_range(v, a + 6, b);
        Ok(Token::OpenEach(string_of_range(v, c, d)))
    } else if range_equals(v, a, b, kw_close_each_lit.as_slice()) {
        Ok(Token::CloseEach)
    } else if a == b {
        Err(ParseError::InvalidSyntax(String::from_str("empty tag")))
    } else {
        match find_in_range(v, a, b, '|') {
            Some(k) => {
                proof {
                    lemma_first_index(tag, '|');
                }
                assert(tag.take(k - a) =~= v@.subrange(a as int, k as int));
                assert(tag.skip(k - a + 1) =~= v@.subrange(k + 1, b as int));
                let (p1, p2) = trim_range(v, a, k);
                let (f1, f2) = trim_range(v, k + 1, b);
                Ok(Token::Variable(string_of_range(v, p1, p2), Some(string_of_range(v, f1, f2))))
            },
            None => Ok(Token::Variable(string_of_range(v, a, b), None)),
        }
    }
}

/// Splits a template into tokens.
pub fn tokenize(input: &str) -> (r: Result<Vec<Token>, ParseError>)
    ensures
        match lex(input@) {
            Ok(ts) => r is Ok && tokens_view(r->Ok_0@) == ts,
            Err(e) => r is Err && r->Err_0@ == e,
        },
{
    let v = chars_of(input);
    let n = v.len();
    let mut tokens: Vec<Token> = Vec::new();
    let mut i: usize = 0;
    loop
        invariant
            i <= n,
            n == v@.len(),
            v@ == input@,
            lex(v@) == tokens_then(tokens_view(tokens@), lex_from(v@, i as int)),
        decreases n - i,
    {
        let ghost i0 = i;
        let mut buf = String::new();
        while i < n
            invariant_except_break
                i0 <= i <= n,
                n == v@.len(),
                text_run(v@, i0 as int).0 == buf@ + text_run(v@, i as int).0,
                text_run(v@, i0 as int).1 == text_run(v@, i as int).1,
            ensures
                i0 <= i <= n,
                n == v@.len(),
                text_run(v@, i0 as int).0 == buf@,
                text_run(v@, i0 as int).1 == i,
            decreases n - i,
        {
            let c = v[i];
            let ghost buf_before = buf@;
            if c == '{' {
                if i + 1 < n && v[i + 1] == '{' {
                    push_char(&mut buf, '{');
                    i = i + 2;
                    assert(buf_before + (seq!['{'] + text_run(v@, i as int).0) =~= buf@ + text_run(
                        v@,
                        i as int,
                    ).0);
                } else {
                    assert(buf@ + text_run(v@, i as int).0 =~= buf@);
                    break;
                }
            } else if c == '}' && i + 1 < n && v[i + 1] == '}' {
                push_char(&mut buf, '}');
                i = i + 2;
                assert(buf_before + (seq!['}'] + text_run(v@, i as int).0) =~= buf@ + text_run(
                    v@,
                    i as int,
                ).0);
            } else {
                push_char(&mut buf, c);
                i = i + 1;
                assert(buf_before + (seq![c] + text_run(v@, i as int).0) =~= buf@ + text_run(
                    v@,
                    i as int,
                ).0);
            }
        }
        let ghost run = text_run(v@, i0 as int);
        let ghost before = tokens_view(tokens@);
        if !buf.as_str().is_empty() {
            tokens.push(Token::Text(buf));
            assert(tokens_view(tokens@) =~= before + seq![TokenV::Text(run.0)]);
        } else {
            assert(tokens_view(tokens@) =~= before + Seq::<TokenV>::empty());
        }
        if i >= n {
            assert(lex_from(v@, i0 as int) == Ok::<Seq<TokenV>, ParseErrorV>(
                if run.0.len() > 0 { seq![TokenV::Text(run.0)] } else { seq![] },
            ));
            return Ok(tokens);
        }
        proof {
            lemma_text_run_end(v@, i0 as int);
        }
        match find_in_range(&v, i + 1, n, '}') {
            None => {
                return Err(ParseError::InvalidSyntax(String::from_str("unclosed tag, expected '}'")));
            },
            Some(j) => {
                proof {
                    lemma_first_index(v@.subrange(i + 1, n as int), '}');
                }
                match classify_range(&v, i + 1, j) {
                    Err(e) => {
                        return Err(e);
                    },
                    Ok(tok) => {
                        let ghost mid = tokens_view(tokens@);
                        tokens.push(tok);
                        assert(tokens_view(tokens@) =~= mid.push(tok@));
                        i = j + 1;
                        proof {
                            match lex_from(v@, i as int) {
                                Ok(rest) => {
                                    assert(mid + (seq![tok@] + rest) =~= tokens_view(tokens@)
                                        + rest);
                                    assert(before + ((if run.0.len() > 0 {
                                        seq![TokenV::Text(run.0)]
                                    } else {
                                        seq![]
                                    }) + seq![tok@] + rest) =~= tokens_view(tokens@) + rest);
                                },
                                Err(_) => {},
                            }
                        }
                    },
                }
            },
        }
    }
}

} // verus!
