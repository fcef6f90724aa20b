use vstd::prelude::*;
use vstd::std_specs::iter::IteratorSpec;

verus! {

broadcast use vstd::string::axiom_spec_iter, vstd::string::next_postcondition;

/// Why an `Authorization` header could not give a bearer token. Each is a
/// bad request, told apart from a token that is present but invalid.
#[derive(Debug, Clone, Copy, PartialEq, Eq, Structural)]
pub enum HeaderError {
    MissingHeader,
    MalformedHeader,
    MissingType,
    UnsupportedType,
    MissingToken,
}

impl HeaderError {
    /// The HTTP status of the error: always a bad request.
    pub fn status_code(&self) -> (r: u16)
        ensures
            r == 400,
    {
        400
    }

    pub open spec fn message_spec(&self) -> Seq<char> {
        match self {
            HeaderError::MissingHeader => "missing Authorization header"@,
            HeaderError::MalformedHeader => "malformed Authorization header"@,
            HeaderError::MissingType => "missing Authorization type"@,
            HeaderError::UnsupportedType => "unsupported Authorization type"@,
            HeaderError::MissingToken => "missing Bearer token"@,
        }
    }

    /// The text of the error.
    pub fn message(&self) -> (r: String)
        ensures
            r@ == self.message_spec(),
    {
        match self {
            HeaderError::MissingHeader => "missing Authorization header".to_owned(),
            HeaderError::MalformedHeader => "malformed Authorization header".to_owned(),
            HeaderError::MissingType => "missing Authorization type".to_owned(),
            HeaderError::UnsupportedType => "unsupported Authorization type".to_owned(),
            HeaderError::MissingToken => "missing Bearer token".to_owned(),
        }
    }
}

/// ASCII whitespace: space, tab, line feed, form feed, carriage return.
pub open spec fn is_ws(c: char) -> bool {
    c == ' ' || c == '\t' || c == '\n' || c == '\x0C' || c == '\r'
}

/// The first position at or after `i` that is not whitespace.
pub open spec fn skip_ws(s: Seq<char>, i: int) -> int
    decreases s.len() - i,
{
    if 0 <= i < s.len() && is_ws(s[i]) {
        skip_ws(s, i + 1)
    } else {
        i
    }
}

/// The first position at or after `i` that is whitespace, or the end.
pub open spec fn word_end(s: Seq<char>, i: int) -> int
    decreases s.len() - i,
{
    if 0 <= i < s.len() && !is_ws(s[i]) {
        word_end(s, i + 1)
    } else {
        i
    }
}

/// The first whitespace-separated word of `s` (empty when there is none).
pub open spec fn first_word(s: Seq<char>) -> Seq<char> {
    s.subrange(skip_ws(s, 0), word_end(s, skip_ws(s, 0)))
}

/// The second whitespace-separated word of `s` (empty when there is none).
pub open spec fn second_word(s: Seq<char>) -> Seq<char> {
    let b = word_end(s, skip_ws(s, 0));
    s.subrange(skip_ws(s, b), word_end(s, skip_ws(s, b)))
}

/// What an `Authorization` header value gives: the token after the scheme
/// `Bearer`, or why there is none.
pub open spec fn bearer_of(s: Seq<char>) -> Result<Seq<char>, HeaderError> {
    if first_word(s).len() == 0 {
        Err(HeaderError::MissingType)
    } else if first_word(s) != "Bearer"@ {
        Err(HeaderError::UnsupportedType)
    } else if second_word(s).len() == 0 {
        Err(HeaderError::MissingToken)
    } else {
        Ok(second_word(s))
    }
}

/// Relies on std's String::push: appends one character.
#[verifier::external_body]
fn push_char(s: &mut String, c: char)
    ensures
        final(s)@ == old(s)@.push(c),
{
    s.push(c)
}

fn is_ascii_ws(c: char) -> (r: bool)
    ensures
        r == is_ws(c),
{
    c == ' ' || c == '\t' || c == '\n' || c == '\x0C' || c == '\r'
}

fn to_chars(s: &str) -> (r: Vec<char>)
    ensures
        r@ == s@,
{
    let mut it = s.chars();
    let mut v: Vec<char> = Vec::new();
    loop
        invariant
            it.obeys_prophetic_iter_laws(),
            v@ + it.remaining() == s@,
        decreases s@.len() - v@.len(),
    {
        let ghost before = it.remaining();
        match it.next() {
            Some(c) => {
                v.push(c);
                proof {
                    assert(v@ + it.remaining() =~= s@) by {
                        assert(before =~= seq![c] + it.remaining());
                    }
                }
            },
            None => {
                assert(v@ =~= s@);
                return v;
            },
        }
    }
}

fn skip_ws_from(cs: &Vec<char>, i: usize) -> (r: usize)
    requires
        i <= cs@.len(),
    ensures
        r == skip_ws(cs@, i as int),
{
    let mut k = i;
    while k < cs.len() && is_ascii_ws(cs[k])
        invariant
            i <= k <= cs@.len(),
            skip_ws(cs@, k as int) == skip_ws(cs@, i as int),
        decreases cs.len() - k,
    {
        k = k + 1;
    }
    k
}

fn word_end_from(cs: &Vec<char>, i: usize) -> (r: usize)
    requires
        i <= cs@.len(),
    ensures
        r == word_end(cs@, i as int),
{
    let mut k = i;
    while k < cs.len() && !is_ascii_ws(cs[k])
        invariant
            i <= k <= cs@.len(),
            word_end(cs@, k as int) == word_end(cs@, i as int),
        decreases cs.len() - k,
    {
        k = k + 1;
    }
    k
}

proof fn lemma_bounds(s: Seq<char>, i: int)
    requires
        0 <= i <= s.len(),
    ensures
        i <= skip_ws(s, i) <= s.len(),
        i <= word_end(s, i) <= s.len(),
    decreases s.len() - i,
{
    if i < s.len() {
        lemma_bounds(s, i + 1);
    }
}

fn slice_text(cs: &Vec<char>, a: usize, b: usize) -> (r: String)
    requires
        a <= b <= cs@.len(),
    ensures
        r@ == cs@.subrange(a as int, b as int),
{
    let mut r = String::new();
    let mut k = a;
    while k < b
        invariant
            a <= k <= b,
            b <= cs@.len(),
            r@ == cs@.subrange(a as int, k as int),
        decreases b - k,
    {
        push_char(&mut r, cs[k]);
        proof {
            assert(cs@.subrange(a as int, k + 1) =~= cs@.subrange(a as int, k as int).push(cs@[k as int]));
        }
        k = k + 1;
    }
    r
}

/// Reads the bearer token out of an `Authorization` header value: the
/// value splits at ASCII whitespace, its first word must be `Bearer`, and
/// its second word is the token.
pub fn bearer_token(header: &str) -> (r: Result<String, HeaderError>)
    ensures
        match bearer_of(header@) {
            Ok(t) => r is Ok && r->Ok_0@ == t,
            Err(e) => r == Err::<String, HeaderError>(e),
        },
{
    let cs = to_chars(header);
    proof {
        lemma_bounds(cs@, 0);
    }
    let a = skip_ws_from(&cs, 0);
    proof {
        lemma_bounds(cs@, a as int);
    }
    let b = word_end_from(&cs, a);
    if a == b {
        return Err(HeaderError::MissingType);
    }
    let scheme = slice_text(&cs, a, b);
    let bearer = "Bearer".to_owned();
    if scheme != bearer {
        return Err(HeaderError::UnsupportedType);
    }
    proof {
        lemma_bounds(cs@, b as int);
    }
    let c = skip_ws_from(&cs, b);
    proof {
        lemma_bounds(cs@, c as int);
    }
    let d = word_end_from(&cs, c);
    if c == d {
        return Err(HeaderError::MissingToken);
    }
    Ok(slice_text(&cs, c, d))
}

} // verus!
