use vstd::prelude::*;

verus! {

/// Whether `s` begins with `p`.
pub open spec fn starts_with(s: Seq<char>, p: Seq<char>) -> bool {
    p.len() <= s.len() && s.subrange(0, p.len() as int) == p
}

/// Tests whether `s` begins with `p`, character by character.
pub fn has_prefix(s: &str, p: &str) -> (r: bool)
    ensures
        r == starts_with(s@, p@),
{
    let n = p.unicode_len();
    let m = s.unicode_len();
    if n > m {
        return false;
    }
    let mut i: usize = 0;
    while i < n
        invariant
            n == p@.len(),
            m == s@.len(),
            n <= m,
            i <= n,
            forall|j: int| 0 <= j < i ==> s@[j] == p@[j],
        decreases n - i,
    {
        if s.get_char(i) != p.get_char(i) {
            assert(s@.subrange(0, n as int)[i as int] != p@[i as int]);
            return false;
        }
        i = i + 1;
    }
    assert(s@.subrange(0, n as int) =~= p@);
    true
}

/// Tests two strings for equality, character by character.
pub fn same_text(a: &str, b: &str) -> (r: bool)
    ensures
        r == (a@ == b@),
{
    if a.unicode_len() != b.unicode_len() {
        return false;
    }
    let r = has_prefix(a, b);
    assert(a@ =~= a@.subrange(0, b@.len() as int));
    r
}

/// The whitespace that is trimmed from text content.
pub open spec fn is_ws(c: char) -> bool {
    c == ' ' || c == '\t' || c == '\n' || c == '\r'
}

/// The index of the first character at or after `i` that is not whitespace.
pub open spec fn text_start(s: Seq<char>, i: int) -> int
    decreases s.len() - i,
{
    if 0 <= i < s.len() && is_ws(s[i]) {
        text_start(s, i + 1)
    } else {
        i
    }
}

/// The index after the last character before `j` and at or after `lo` that is
/// not whitespace.
pub open spec fn text_end(s: Seq<char>, j: int, lo: int) -> int
    decreases j - lo,
{
    if 0 <= lo < j <= s.len() && is_ws(s[j - 1]) {
        text_end(s, j - 1, lo)
    } else {
        j
    }
}

/// `s` without its leading and trailing whitespace.
pub open spec fn trimmed(s: Seq<char>) -> Seq<char> {
    let a = text_start(s, 0);
    s.subrange(a, text_end(s, s.len() as int, a))
}

proof fn lemma_text_start_bounds(s: Seq<char>, i: int)
    requires
        0 <= i <= s.len(),
    ensures
        i <= text_start(s, i) <= s.len(),
    decreases s.len() - i,
{
    if i < s.len() && is_ws(s[i]) {
        lemma_text_start_bounds(s, i + 1);
    }
}

fn is_ws_char(c: char) -> (r: bool)
    ensures
        r == is_ws(c),
{
    c == ' ' || c == '\t' || c == '\n' || c == '\r'
}

/// Drops the leading and trailing whitespace of `s`.
pub fn trim_text(s: &str) -> (r: String)
    ensures
        r@ == trimmed(s@),
{
    let n = s.unicode_len();
    let mut a: usize = 0;
    while a < n && is_ws_char(s.get_char(a))
        invariant
            n == s@.len(),
            a <= n,
            text_start(s@, a as int) == text_start(s@, 0),
        decreases n - a,
    {
        a = a + 1;
    }
    let mut b: usize = n;
    while b > a && is_ws_char(s.get_char(b - 1))
        invariant
            n == s@.len(),
            a <= b <= n,
            a == text_start(s@, 0),
            text_end(s@, b as int, a as int) == text_end(s@, n as int, a as int),
        decreases b,
    {
        b = b - 1;
    }
    proof {
        lemma_text_start_bounds(s@, 0);
    }
    String::from_str(s.substring_char(a, b))
}

/// What the HTML entity decoder makes of a text.
pub uninterp spec fn decoded_entities(s: Seq<char>) -> Seq<char>;

/// Relies on html_escape::decode_html_entities: the text with its character
/// references replaced by the characters they stand for. A text without `&`
/// holds no reference and comes back as it is.
#[verifier::external_body]
pub fn decode_entities(s: &str) -> (r: String)
    ensures
        r@ == decoded_entities(s@),
        (forall|i: int| 0 <= i < s@.len() ==> s@[i] != '&') ==> r@ == s@,
{
    html_escape::decode_html_entities(s).into_owned()
}

/// The text that a text child contributes: entity-decoded, then trimmed.
pub fn text_content(raw: &str) -> (r: String)
    ensures
        r@ == trimmed(decoded_entities(raw@)),
{
    let decoded = decode_entities(raw);
    trim_text(decoded.as_str())
}

/// What a character of text content becomes in markup: `&`, `<` and `>` turn
/// into their entities, any other character stays.
pub open spec fn text_entity(c: char) -> Seq<char> {
    if c == '&' {
        seq!['&', 'a', 'm', 'p', ';']
    } else if c == '<' {
        seq!['&', 'l', 't', ';']
    } else if c == '>' {
        seq!['&', 'g', 't', ';']
    } else {
        seq![c]
    }
}

/// What a character of a double-quoted attribute value becomes in markup: as
/// in text, and `"` turns into `&quot;`.
pub open spec fn attr_entity(c: char) -> Seq<char> {
    if c == '"' {
        seq!['&', 'q', 'u', 'o', 't', ';']
    } else {
        text_entity(c)
    }
}

/// Text content with each character escaped.
pub open spec fn escaped_text(s: Seq<char>) -> Seq<char>
    decreases s.len(),
{
    if s.len() == 0 {
        Seq::empty()
    } else {
        escaped_text(s.drop_last()) + text_entity(s.last())
    }
}

/// A double-quoted attribute value with each character escaped.
pub open spec fn escaped_attr(s: Seq<char>) -> Seq<char>
    decreases s.len(),
{
    if s.len() == 0 {
        Seq::empty()
    } else {
        escaped_attr(s.drop_last()) + attr_entity(s.last())
    }
}

/// Relies on html_escape::encode_text: each `&`, `<` and `>` is replaced by
/// `&amp;`, `&lt;` and `&gt;`, and every other character is kept in order.
#[verifier::external_body]
pub fn encode_text(s: &str) -> (r: String)
    ensures
        r@ == escaped_text(s@),
{
    html_escape::encode_text(s).into_owned()
}

/// Relies on html_escape::encode_double_quoted_attribute: each `&`, `<`, `>`
/// and `"` is replaced by `&amp;`, `&lt;`, `&gt;` and `&quot;`, and every other
/// character is kept in order.
#[verifier::external_body]
pub fn encode_attribute(s: &str) -> (r: String)
    ensures
        r@ == escaped_attr(s@),
{
    html_escape::encode_double_quoted_attribute(s).into_owned()
}

} // verus!
