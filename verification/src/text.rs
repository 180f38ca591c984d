//! Character-level helpers shared by the registry, the typed variables and
//! the command-line glue.
//!
//! The few standard-library string operations whose behaviour takes Unicode
//! tables to describe (lowercasing, lossy UTF-8 decoding, `Debug` quoting)
//! are given names here; everything built on top of them is verified.
use vstd::prelude::*;
use vstd::utf8::*;
use vstd::string::*;

verus! {

broadcast use vstd::utf8::encode_utf8_decode_utf8;

/// The Unicode lowercase mapping that `str::to_lowercase` applies.
pub uninterp spec fn lowercase(s: Seq<char>) -> Seq<char>;

/// The lowercase of an ASCII letter; any other character stays as it is.
pub open spec fn ascii_lower(c: char) -> char {
    if 'A' <= c && c <= 'Z' {
        ((c as u32) + 32) as char
    } else {
        c
    }
}

/// Every character is ASCII.
pub open spec fn all_ascii(s: Seq<char>) -> bool {
    forall|i: int| 0 <= i < s.len() ==> (#[trigger] s[i] as u32) < 128
}

/// The Unicode `White_Space` property, which `char::is_whitespace` reports:
/// tab through carriage return, space, next line, no-break space, ogham
/// space mark, the spaces from en quad to hair space, line and paragraph
/// separators, narrow no-break space, medium mathematical space and
/// ideographic space.
pub open spec fn white_space(c: char) -> bool {
    let n = c as u32;
    ||| 0x9 <= n <= 0xD
    ||| n == 0x20
    ||| n == 0x85
    ||| n == 0xA0
    ||| n == 0x1680
    ||| 0x2000 <= n <= 0x200A
    ||| n == 0x2028
    ||| n == 0x2029
    ||| n == 0x202F
    ||| n == 0x205F
    ||| n == 0x3000
}

/// The text that `String::from_utf8_lossy` decodes from a byte sequence.
pub uninterp spec fn lossy_utf8(b: Seq<u8>) -> Seq<char>;

/// The `Debug` rendering of a string (quoted and escaped), as `{:?}` prints it.
pub uninterp spec fn debug_quoted(s: Seq<char>) -> Seq<char>;

/// String equality: equal exactly when the character sequences are equal.
/// The UTF-8 bytes are compared, which decide the characters.
pub(crate) fn str_eq(a: &str, b: &str) -> (r: bool)
    ensures
        r == (a@ == b@),
{
    let x = a.as_bytes();
    let y = b.as_bytes();
    proof {
        lemma_str_chars_from_bytes(a, x@);
        lemma_str_chars_from_bytes(b, y@);
        assert(x@ == encode_utf8(a@));
        assert(y@ == encode_utf8(b@));
    }
    if x.len() != y.len() {
        return false;
    }
    let n = x.len();
    let mut i: usize = 0;
    while i < n
        invariant
            n == x@.len(),
            n == y@.len(),
            x@ == encode_utf8(a@),
            y@ == encode_utf8(b@),
            i <= n,
            forall|k: int| 0 <= k < i ==> x@[k] == y@[k],
        decreases n - i,
    {
        if x[i] != y[i] {
            assert(x@[i as int] != y@[i as int]);
            return false;
        }
        i = i + 1;
    }
    assert(x@ =~= y@);
    true
}

/// `str::to_lowercase`: the result is the named lowercase mapping of the
/// input. On ASCII text that mapping lowers the letters `A` to `Z` one for
/// one and keeps every other character, as `str::to_ascii_lowercase`
/// does.
#[verifier::external_body]
pub(crate) fn to_lowercase(s: &str) -> (r: String)
    ensures
        r@ == lowercase(s@),
        all_ascii(s@) ==> r@ == s@.map_values(|c: char| ascii_lower(c)),
{
    s.to_lowercase()
}

/// `String::push`: appends one character.
#[verifier::external_body]
pub(crate) fn string_push(s: &mut String, c: char)
    ensures
        final(s)@ == old(s)@.push(c),
{
    s.push(c)
}

/// Whether `c` has the Unicode `White_Space` property.
pub(crate) fn is_whitespace(c: char) -> (r: bool)
    ensures
        r == white_space(c),
{
    let n = c as u32;
    (0x9 <= n && n <= 0xD) || n == 0x20 || n == 0x85 || n == 0xA0 || n == 0x1680 || (0x2000 <= n && n
        <= 0x200A) || n == 0x2028 || n == 0x2029 || n == 0x202F || n == 0x205F || n == 0x3000
}

/// `std::str::from_utf8`: succeeds exactly on valid UTF-8, and the string it
/// returns has the same bytes as its input.
#[verifier::external_body]
pub(crate) fn utf8_str(b: &[u8]) -> (r: Option<&str>)
    ensures
        r is Some <==> valid_utf8(b@),
        r matches Some(s) ==> s.spec_bytes() == b@,
{
    std::str::from_utf8(b).ok()
}

/// `String::from_utf8_lossy`: the named lossy decoding of the bytes.
#[verifier::external_body]
pub(crate) fn utf8_lossy(b: &[u8]) -> (r: String)
    ensures
        r@ == lossy_utf8(b@),
{
    String::from_utf8_lossy(b).into_owned()
}

/// `format!("{:?}", s)` on a string slice: the named `Debug` quoting.
#[verifier::external_body]
pub(crate) fn debug_string(s: &str) -> (r: String)
    ensures
        r@ == debug_quoted(s@),
{
    format!("{:?}", s)
}

/// The characters of a string decoded from the bytes of a valid UTF-8 string.
pub proof fn lemma_str_chars_from_bytes(s: &str, b: Seq<u8>)
    requires
        s.spec_bytes() == b,
    ensures
        s@ == decode_utf8(b),
        valid_utf8(b),
{
    broadcast use vstd::utf8::encode_utf8_valid_utf8;
    assert(decode_utf8(encode_utf8(s@)) == s@);
}

/// Copies a string into a fresh `String`.
pub fn owned(s: &str) -> (r: String)
    ensures
        r@ == s@,
{
    s.to_owned()
}

/// Appends `s` to `out`.
pub fn push_str(out: &mut String, s: &str)
    ensures
        final(out)@ == old(out)@ + s@,
{
    let n = s.unicode_len();
    let ghost start = out@;
    let mut i: usize = 0;
    while i < n
        invariant
            n == s@.len(),
            i <= n,
            out@ == start + s@.subrange(0, i as int),
        decreases n - i,
    {
        let c = s.get_char(i);
        string_push(out, c);
        assert(s@.subrange(0, i + 1) == s@.subrange(0, i as int).push(c));
        i = i + 1;
    }
    assert(s@.subrange(0, n as int) == s@);
}

/// `c` with underscores turned into dashes.
pub open spec fn dash_for_underscore(c: char) -> char {
    if c == '_' {
        '-'
    } else {
        c
    }
}

/// The long command-line flag derived from an environment variable name:
/// lowercased, with every `_` replaced by `-`.
pub open spec fn spec_long_flag(name: Seq<char>) -> Seq<char> {
    lowercase(name).map_values(|c: char| dash_for_underscore(c))
}

/// Builds the long flag for an environment variable name, e.g.
/// `MY_PORT` becomes `my-port`.
pub fn long_flag(name: &str) -> (r: String)
    ensures
        r@ == spec_long_flag(name@),
{
    let lower = to_lowercase(name);
    let lower_str = lower.as_str();
    let n = lower_str.unicode_len();
    let mut out = String::new();
    let mut i: usize = 0;
    while i < n
        invariant
            n == lower_str@.len(),
            lower_str@ == lowercase(name@),
            i <= n,
            out@ == lower_str@.subrange(0, i as int).map_values(|c: char| dash_for_underscore(c)),
        decreases n - i,
    {
        let c = lower_str.get_char(i);
        if c == '_' {
            string_push(&mut out, '-');
        } else {
            string_push(&mut out, c);
        }
        assert(lower_str@.subrange(0, i + 1) == lower_str@.subrange(0, i as int).push(c));
        assert(lower_str@.subrange(0, i + 1).map_values(|c: char| dash_for_underscore(c))
            == lower_str@.subrange(0, i as int).map_values(|c: char| dash_for_underscore(c)).push(
            dash_for_underscore(c),
        ));
        i = i + 1;
    }
    assert(lower_str@.subrange(0, n as int) == lower_str@);
    out
}

/// The pieces of `s` between newline characters (one more piece than there
/// are newlines).
pub open spec fn split_newlines(s: Seq<char>) -> Seq<Seq<char>>
    decreases s.len(),
{
    if s.len() == 0 {
        seq![Seq::empty()]
    } else {
        let p = split_newlines(s.drop_last());
        if s.last() == '\n' {
            p.push(Seq::empty())
        } else {
            p.update(p.len() - 1, p.last().push(s.last()))
        }
    }
}

/// A line without the carriage return that preceded its newline.
pub open spec fn strip_cr(l: Seq<char>) -> Seq<char> {
    if l.len() > 0 && l.last() == '\r' {
        l.drop_last()
    } else {
        l
    }
}

/// The lines of `s` as `str::lines` yields them: split at `\n` or `\r\n`,
/// with the final line ending optional (a trailing `\r` without a newline
/// stays in the last line).
pub open spec fn doc_lines(s: Seq<char>) -> Seq<Seq<char>> {
    let p = split_newlines(s);
    let body = p.drop_last().map_values(|l: Seq<char>| strip_cr(l));
    if p.last().len() == 0 {
        body
    } else {
        body.push(p.last())
    }
}

/// A line without one leading space (the one rustdoc adds after `///`).
pub open spec fn unindent(l: Seq<char>) -> Seq<char> {
    if l.len() > 0 && l[0] == ' ' {
        l.drop_first()
    } else {
        l
    }
}

/// Lines joined with newlines.
pub open spec fn join_lines(ls: Seq<Seq<char>>) -> Seq<char>
    decreases ls.len(),
{
    if ls.len() == 0 {
        Seq::empty()
    } else if ls.len() == 1 {
        ls[0]
    } else {
        join_lines(ls.drop_last()) + seq!['\n'] + ls.last()
    }
}

/// `s` without leading white space.
pub open spec fn trim_start(s: Seq<char>) -> Seq<char>
    decreases s.len(),
{
    if s.len() > 0 && white_space(s[0]) {
        trim_start(s.drop_first())
    } else {
        s
    }
}

/// `s` without trailing white space.
pub open spec fn trim_end(s: Seq<char>) -> Seq<char>
    decreases s.len(),
{
    if s.len() > 0 && white_space(s.last()) {
        trim_end(s.drop_last())
    } else {
        s
    }
}

/// `s` without leading or trailing white space, as `str::trim` leaves it.
pub open spec fn trim(s: Seq<char>) -> Seq<char> {
    trim_end(trim_start(s))
}

/// A doc comment as help text: every line loses the one leading space that
/// rustdoc adds, the lines are joined with newlines and the whole is
/// trimmed.
pub open spec fn normalized_doc(s: Seq<char>) -> Seq<char> {
    trim(join_lines(doc_lines(s).map_values(|l: Seq<char>| unindent(l))))
}

/// The views of a vector of character vectors.
pub open spec fn lines_view(v: Seq<Vec<char>>) -> Seq<Seq<char>> {
    v.map_values(|l: Vec<char>| l@)
}

/// The characters of a string.
pub fn chars_of(s: &str) -> (r: Vec<char>)
    ensures
        r@ == s@,
{
    let n = s.unicode_len();
    let mut out: Vec<char> = Vec::new();
    let mut i: usize = 0;
    while i < n
        invariant
            n == s@.len(),
            i <= n,
            out@ == s@.subrange(0, i as int),
        decreases n - i,
    {
        out.push(s.get_char(i));
        i = i + 1;
    }
    out
}

/// A string made of the given characters.
pub fn string_of(chars: &Vec<char>) -> (r: String)
    ensures
        r@ == chars@,
{
    let mut out = String::new();
    let n = chars.len();
    let mut i: usize = 0;
    while i < n
        invariant
            n == chars@.len(),
            i <= n,
            out@ == chars@.subrange(0, i as int),
        decreases n - i,
    {
        string_push(&mut out, chars[i]);
        assert(chars@.subrange(0, i + 1) == chars@.subrange(0, i as int).push(chars@[i as int]));
        i = i + 1;
    }
    assert(chars@.subrange(0, n as int) == chars@);
    out
}

/// Splits characters at newlines: the completed pieces and the last one.
fn split_at_newlines(s: &Vec<char>) -> (r: (Vec<Vec<char>>, Vec<char>))
    ensures
        lines_view(r.0@).push(r.1@) == split_newlines(s@),
{
    let mut done: Vec<Vec<char>> = Vec::new();
    let mut current: Vec<char> = Vec::new();
    let n = s.len();
    let mut i: usize = 0;
    while i < n
        invariant
            n == s@.len(),
            i <= n,
            lines_view(done@).push(current@) == split_newlines(s@.subrange(0, i as int)),
        decreases n - i,
    {
        let c = s[i];
        let ghost prefix = s@.subrange(0, i + 1);
        assert(prefix.drop_last() == s@.subrange(0, i as int));
        if c == '\n' {
            let finished = current;
            done.push(finished);
            current = Vec::new();
            assert(lines_view(done@) == lines_view(done@.drop_last()).push(finished@));
        } else {
            current.push(c);
            assert(lines_view(done@).push(current@) == split_newlines(s@.subrange(0, i as int)).update(
                lines_view(done@).len() as int, current@));
        }
        i = i + 1;
    }
    assert(s@.subrange(0, n as int) == s@);
    (done, current)
}

/// A line without its trailing carriage return and without one leading
/// space.
fn unindented(l: &Vec<char>, drop_cr: bool) -> (r: Vec<char>)
    ensures
        r@ == unindent(if drop_cr { strip_cr(l@) } else { l@ }),
{
    let mut end = l.len();
    if drop_cr && end > 0 && l[end - 1] == '\r' {
        end = end - 1;
    }
    let mut start: usize = 0;
    if start < end && l[0] == ' ' {
        start = 1;
    }
    let mut out: Vec<char> = Vec::new();
    let mut i = start;
    while i < end
        invariant
            start <= i <= end <= l@.len(),
            out@ == l@.subrange(start as int, i as int),
        decreases end - i,
    {
        out.push(l[i]);
        i = i + 1;
    }
    let ghost cut = if drop_cr { strip_cr(l@) } else { l@ };
    assert(cut == l@.subrange(0, end as int));
    assert(unindent(cut) == cut.subrange(start as int, end as int));
    out
}

/// Lines joined with newlines.
fn join_with_newlines(ls: &Vec<Vec<char>>) -> (r: Vec<char>)
    ensures
        r@ == join_lines(lines_view(ls@)),
{
    let mut out: Vec<char> = Vec::new();
    let n = ls.len();
    let mut k: usize = 0;
    while k < n
        invariant
            n == ls@.len(),
            k <= n,
            out@ == join_lines(lines_view(ls@).take(k as int)),
        decreases n - k,
    {
        let ghost before = out@;
        if k > 0 {
            out.push('\n');
        }
        let line = &ls[k];
        let m = line.len();
        let mut i: usize = 0;
        while i < m
            invariant
                m == line@.len(),
                i <= m,
                out@ == before + (if k > 0 { seq!['\n'] } else { Seq::empty() }) + line@.subrange(0, i as int),
            decreases m - i,
        {
            out.push(line[i]);
            i = i + 1;
        }
        assert(line@.subrange(0, m as int) == line@);
        let ghost taken = lines_view(ls@).take(k + 1);
        assert(taken.drop_last() == lines_view(ls@).take(k as int));
        assert(taken.last() == line@);
        if k == 0 {
            assert(taken.len() == 1);
            assert(out@ == taken[0]);
        }
        k = k + 1;
    }
    assert(lines_view(ls@).take(n as int) == lines_view(ls@));
    out
}

/// Leading white space of a sequence is what `trim_start` drops.
proof fn lemma_trim_start(s: Seq<char>, a: int)
    requires
        0 <= a <= s.len(),
        forall|i: int| 0 <= i < a ==> white_space(#[trigger] s[i]),
        a == s.len() || !white_space(s[a]),
    ensures
        trim_start(s) == s.subrange(a, s.len() as int),
    decreases a,
{
    if a > 0 {
        assert(forall|i: int| 0 <= i < a - 1 ==> #[trigger] s.drop_first()[i] == s[i + 1]);
        lemma_trim_start(s.drop_first(), a - 1);
        assert(s.drop_first().subrange(a - 1, s.len() - 1) == s.subrange(a, s.len() as int));
    } else {
        assert(s.subrange(0, s.len() as int) == s);
    }
}

/// Trailing white space of a sequence is what `trim_end` drops.
proof fn lemma_trim_end(s: Seq<char>, b: int)
    requires
        0 <= b <= s.len(),
        forall|i: int| b <= i < s.len() ==> white_space(#[trigger] s[i]),
        b == 0 || !white_space(s[b - 1]),
    ensures
        trim_end(s) == s.subrange(0, b),
    decreases s.len() - b,
{
    if b < s.len() {
        lemma_trim_end(s.drop_last(), b);
        assert(s.drop_last().subrange(0, b) == s.subrange(0, b));
    } else {
        assert(s.subrange(0, s.len() as int) == s);
    }
}

/// The characters without leading or trailing white space.
fn trimmed(v: &Vec<char>) -> (r: Vec<char>)
    ensures
        r@ == trim(v@),
{
    let n = v.len();
    let mut a: usize = 0;
    while a < n && is_whitespace(v[a])
        invariant
            n == v@.len(),
            a <= n,
            forall|i: int| 0 <= i < a ==> white_space(#[trigger] v@[i]),
        decreases n - a,
    {
        a = a + 1;
    }
    proof {
        lemma_trim_start(v@, a as int);
    }
    let ghost rest = v@.subrange(a as int, n as int);
    let mut b: usize = n;
    while b > a && is_whitespace(v[b - 1])
        invariant
            n == v@.len(),
            a <= b <= n,
            rest == v@.subrange(a as int, n as int),
            forall|i: int| b <= i < n ==> white_space(#[trigger] v@[i]),
        decreases b - a,
    {
        b = b - 1;
    }
    proof {
        assert forall|i: int| b - a <= i < rest.len() implies white_space(#[trigger] rest[i]) by {
            assert(rest[i] == v@[i + a]);
        }
        if b > a {
            assert(rest[b - a - 1] == v@[b - 1]);
        }
        lemma_trim_end(rest, b - a);
        assert(rest.subrange(0, b - a) == v@.subrange(a as int, b as int));
    }
    let mut out: Vec<char> = Vec::new();
    let mut i = a;
    while i < b
        invariant
            a <= i <= b <= n,
            n == v@.len(),
            out@ == v@.subrange(a as int, i as int),
        decreases b - i,
    {
        out.push(v[i]);
        i = i + 1;
    }
    out
}

/// `s` without leading or trailing white space.
pub fn trim_str(s: &str) -> (r: String)
    ensures
        r@ == trim(s@),
{
    let chars = chars_of(s);
    let t = trimmed(&chars);
    string_of(&t)
}

/// Turns a doc comment into help text: strips the one leading space that
/// rustdoc adds to each line, joins the lines with newlines and trims the
/// result.
pub fn normalize_doc(s: &str) -> (r: String)
    ensures
        r@ == normalized_doc(s@),
{
    let chars = chars_of(s);
    let (done, last) = split_at_newlines(&chars);
    let ghost pieces = split_newlines(s@);
    let mut lines: Vec<Vec<char>> = Vec::new();
    let n = done.len();
    let mut k: usize = 0;
    while k < n
        invariant
            n == done@.len(),
            k <= n,
            lines@.len() == k,
            forall|t: int| 0 <= t < k ==> #[trigger] lines@[t]@ == unindent(strip_cr(done@[t]@)),
        decreases n - k,
    {
        let line = unindented(&done[k], true);
        lines.push(line);
        k = k + 1;
    }
    proof {
        assert(pieces.drop_last() == lines_view(done@));
        assert(pieces.last() == last@);
    }
    if last.len() > 0 {
        let line = unindented(&last, false);
        lines.push(line);
    }
    proof {
        let target = doc_lines(s@).map_values(|l: Seq<char>| unindent(l));
        assert(lines_view(lines@).len() == target.len());
        assert forall|t: int| 0 <= t < target.len() implies lines_view(lines@)[t] == target[t] by {
            if t < n {
                assert(pieces.drop_last()[t] == done@[t]@);
            }
        }
        assert(lines_view(lines@) =~= target);
    }
    let joined = join_with_newlines(&lines);
    let t = trimmed(&joined);
    string_of(&t)
}

/// The order of strings: lexicographic by code point, which is the order
/// in which `str` compares (the byte order of UTF-8 agrees with it).
pub open spec fn key_less(a: Seq<char>, b: Seq<char>) -> bool
    decreases a.len(),
{
    if a.len() == 0 {
        b.len() > 0
    } else if b.len() == 0 {
        false
    } else if a[0] != b[0] {
        a[0] < b[0]
    } else {
        key_less(a.drop_first(), b.drop_first())
    }
}

/// No string comes before itself.
pub proof fn lemma_key_less_irreflexive(a: Seq<char>)
    ensures
        !key_less(a, a),
    decreases a.len(),
{
    if a.len() > 0 {
        lemma_key_less_irreflexive(a.drop_first());
    }
}

/// Of two different strings, one comes before the other.
pub proof fn lemma_key_less_total(a: Seq<char>, b: Seq<char>)
    ensures
        a != b ==> key_less(a, b) || key_less(b, a),
    decreases a.len(),
{
    if a.len() > 0 && b.len() > 0 {
        if a[0] == b[0] {
            lemma_key_less_total(a.drop_first(), b.drop_first());
            if a.drop_first() == b.drop_first() {
                assert(a == seq![a[0]] + a.drop_first());
                assert(b == seq![b[0]] + b.drop_first());
            }
        }
    } else if a.len() == 0 && b.len() == 0 {
        assert(a == b);
    }
}

/// The order of strings is transitive.
pub proof fn lemma_key_less_transitive(a: Seq<char>, b: Seq<char>, c: Seq<char>)
    requires
        key_less(a, b),
        key_less(b, c),
    ensures
        key_less(a, c),
    decreases a.len(),
{
    if a.len() > 0 && b.len() > 0 && c.len() > 0 {
        if a[0] == b[0] && b[0] == c[0] {
            lemma_key_less_transitive(a.drop_first(), b.drop_first(), c.drop_first());
        }
    }
}

/// Compares two strings in the order of `key_less`.
pub fn str_less(a: &str, b: &str) -> (r: bool)
    ensures
        r == key_less(a@, b@),
{
    let la = a.unicode_len();
    let lb = b.unicode_len();
    let mut i: usize = 0;
    assert(a@.skip(0) == a@);
    assert(b@.skip(0) == b@);
    while i < la && i < lb
        invariant
            la == a@.len(),
            lb == b@.len(),
            i <= la,
            i <= lb,
            key_less(a@, b@) == key_less(a@.skip(i as int), b@.skip(i as int)),
        decreases la - i,
    {
        let x = a.get_char(i);
        let y = b.get_char(i);
        assert(a@.skip(i as int)[0] == x);
        assert(b@.skip(i as int)[0] == y);
        if x != y {
            return x < y;
        }
        assert(a@.skip(i as int).drop_first() == a@.skip(i + 1));
        assert(b@.skip(i as int).drop_first() == b@.skip(i + 1));
        i = i + 1;
    }
    la < lb
}

} // verus!
