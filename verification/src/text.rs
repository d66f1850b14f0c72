//! Character-sequence helpers shared by the metadata decoders: UTF-8 and
//! UTF-16 decoding, trimming, ASCII case folding and candidate paths.
use vstd::prelude::*;
use vstd::utf8::{decode_utf8, valid_utf8};

verus! {

/// Unicode `White_Space`, the set that `char::is_whitespace` and `str::trim` use.
pub open spec fn is_ws(c: char) -> bool {
    let v = c as u32;
    ||| 0x09 <= v <= 0x0D
    ||| v == 0x20
    ||| v == 0x85
    ||| v == 0xA0
    ||| v == 0x1680
    ||| 0x2000 <= v <= 0x200A
    ||| v == 0x2028
    ||| v == 0x2029
    ||| v == 0x202F
    ||| v == 0x205F
    ||| v == 0x3000
}

/// The NUL character.
pub open spec fn is_nul(c: char) -> bool {
    c == '\0'
}

/// `s` without its leading characters that satisfy `p`.
pub open spec fn trim_start_with(s: Seq<char>, p: spec_fn(char) -> bool) -> Seq<char>
    decreases s.len(),
{
    if s.len() > 0 && p(s[0]) {
        trim_start_with(s.drop_first(), p)
    } else {
        s
    }
}

/// `s` without its trailing characters that satisfy `p`.
pub open spec fn trim_end_with(s: Seq<char>, p: spec_fn(char) -> bool) -> Seq<char>
    decreases s.len(),
{
    if s.len() > 0 && p(s.last()) {
        trim_end_with(s.drop_last(), p)
    } else {
        s
    }
}

/// `s` without leading and trailing characters that satisfy `p`.
pub open spec fn trim_with(s: Seq<char>, p: spec_fn(char) -> bool) -> Seq<char> {
    trim_end_with(trim_start_with(s, p), p)
}

/// Every character that trimming keeps comes from the trimmed sequence.
pub proof fn lemma_trim_with_keeps(s: Seq<char>, p: spec_fn(char) -> bool)
    ensures
        trim_with(s, p).len() <= s.len(),
        forall|k: int| 0 <= k < trim_with(s, p).len() ==> s.contains(#[trigger] trim_with(s, p)[k]),
{
    lemma_trim_start_keeps(s, p);
    lemma_trim_end_keeps(trim_start_with(s, p), p);
    let t = trim_start_with(s, p);
    assert forall|k: int| 0 <= k < trim_with(s, p).len() implies s.contains(#[trigger] trim_with(s, p)[k]) by {
        let c = trim_with(s, p)[k];
        assert(t.contains(c));
        let m = choose|m: int| 0 <= m < t.len() && t[m] == c;
        assert(s.contains(t[m]));
    }
}

proof fn lemma_trim_start_keeps(s: Seq<char>, p: spec_fn(char) -> bool)
    ensures
        trim_start_with(s, p).len() <= s.len(),
        forall|k: int| 0 <= k < trim_start_with(s, p).len() ==> s.contains(#[trigger] trim_start_with(s, p)[k]),
    decreases s.len(),
{
    if s.len() > 0 && p(s[0]) {
        let t = s.drop_first();
        lemma_trim_start_keeps(t, p);
        assert forall|k: int| 0 <= k < trim_start_with(s, p).len() implies s.contains(
            #[trigger] trim_start_with(s, p)[k],
        ) by {
            let c = trim_start_with(t, p)[k];
            assert(t.contains(c));
            let m = choose|m: int| 0 <= m < t.len() && t[m] == c;
            assert(s[m + 1] == c);
        }
    } else {
        assert forall|k: int| 0 <= k < trim_start_with(s, p).len() implies s.contains(
            #[trigger] trim_start_with(s, p)[k],
        ) by {
            assert(s[k] == trim_start_with(s, p)[k]);
        }
    }
}

proof fn lemma_trim_end_keeps(s: Seq<char>, p: spec_fn(char) -> bool)
    ensures
        trim_end_with(s, p).len() <= s.len(),
        forall|k: int| 0 <= k < trim_end_with(s, p).len() ==> s.contains(#[trigger] trim_end_with(s, p)[k]),
    decreases s.len(),
{
    if s.len() > 0 && p(s.last()) {
        let t = s.drop_last();
        lemma_trim_end_keeps(t, p);
        assert forall|k: int| 0 <= k < trim_end_with(s, p).len() implies s.contains(
            #[trigger] trim_end_with(s, p)[k],
        ) by {
            let c = trim_end_with(t, p)[k];
            assert(t.contains(c));
            let m = choose|m: int| 0 <= m < t.len() && t[m] == c;
            assert(s[m] == c);
        }
    } else {
        assert forall|k: int| 0 <= k < trim_end_with(s, p).len() implies s.contains(
            #[trigger] trim_end_with(s, p)[k],
        ) by {
            assert(s[k] == trim_end_with(s, p)[k]);
        }
    }
}

/// What `str::trim` gives back.
pub open spec fn trim_ws(s: Seq<char>) -> Seq<char> {
    trim_with(s, |c: char| is_ws(c))
}

/// What `str::trim_matches('\0')` gives back.
pub open spec fn trim_nul(s: Seq<char>) -> Seq<char> {
    trim_with(s, |c: char| is_nul(c))
}

/// ASCII lower-casing of one character (other characters are unchanged).
pub open spec fn ascii_lower_char(c: char) -> char {
    if 'A' <= c <= 'Z' {
        ((c as u32) + 32) as char
    } else {
        c
    }
}

/// What `str::to_ascii_lowercase` gives back.
pub open spec fn ascii_lower(s: Seq<char>) -> Seq<char> {
    Seq::new(s.len(), |i: int| ascii_lower_char(s[i]))
}

/// Whether some character of `s` is an ASCII control character (below 0x20).
pub open spec fn has_control_char(s: Seq<char>) -> bool {
    exists|k: int| 0 <= k < s.len() && (s[k] as u32) < 0x20
}

/// The relative path prefix `.\`.
pub open spec fn dot_prefix() -> Seq<char> {
    seq!['.', '\\']
}

/// `.\` followed by `name`.
pub open spec fn relative_path(name: Seq<char>) -> Seq<char> {
    dot_prefix() + name
}

proof fn lemma_trim_start_at(s: Seq<char>, p: spec_fn(char) -> bool, i: int)
    requires
        0 <= i <= s.len(),
        forall|k: int| 0 <= k < i ==> p(s[k]),
        i == s.len() || !p(s[i]),
    ensures
        trim_start_with(s, p) == s.subrange(i, s.len() as int),
    decreases i,
{
    if i == 0 {
        assert(s.subrange(0, s.len() as int) =~= s);
    } else {
        let t = s.drop_first();
        assert forall|k: int| 0 <= k < i - 1 implies p(t[k]) by {
            assert(t[k] == s[k + 1]);
        }
        if i - 1 < t.len() {
            assert(t[i - 1] == s[i]);
        }
        lemma_trim_start_at(t, p, i - 1);
        assert(t.subrange(i - 1, t.len() as int) =~= s.subrange(i, s.len() as int));
    }
}

proof fn lemma_trim_end_at(s: Seq<char>, p: spec_fn(char) -> bool, j: int)
    requires
        0 <= j <= s.len(),
        forall|k: int| j <= k < s.len() ==> p(s[k]),
        j == 0 || !p(s[j - 1]),
    ensures
        trim_end_with(s, p) == s.subrange(0, j),
    decreases s.len() - j,
{
    if j == s.len() {
        assert(s.subrange(0, j) =~= s);
    } else {
        let t = s.drop_last();
        assert forall|k: int| j <= k < t.len() implies p(t[k]) by {
            assert(t[k] == s[k]);
        }
        if j > 0 {
            assert(t[j - 1] == s[j - 1]);
        }
        lemma_trim_end_at(t, p, j);
        assert(t.subrange(0, j) =~= s.subrange(0, j));
    }
}

/// A dot.
pub open spec fn is_dot(c: char) -> bool {
    c == '.'
}

/// What `str::trim_matches('.')` gives back.
pub open spec fn trim_dots(s: Seq<char>) -> Seq<char> {
    trim_with(s, |c: char| is_dot(c))
}

/// `v` without leading and trailing dots.
pub fn trim_dot_chars(v: &Vec<char>) -> (r: Vec<char>)
    ensures
        r@ == trim_dots(v@),
{
    let ghost p = |c: char| is_dot(c);
    let n = v.len();
    let mut i: usize = 0;
    while i < n && v[i] == '.'
        invariant
            i <= n,
            n == v@.len(),
            forall|k: int| 0 <= k < i ==> #[trigger] is_dot(v@[k]),
        decreases n - i,
    {
        i = i + 1;
    }
    proof {
        lemma_trim_start_at(v@, p, i as int);
    }
    let mut j: usize = n;
    while j > i && v[j - 1] == '.'
        invariant
            i <= j <= n,
            n == v@.len(),
            forall|k: int| j <= k < n ==> #[trigger] is_dot(v@[k]),
        decreases j,
    {
        j = j - 1;
    }
    let ghost t = v@.subrange(i as int, n as int);
    proof {
        assert forall|k: int| j - i <= k < t.len() implies p(t[k]) by {
            assert(t[k] == v@[i + k]);
        }
        if j > i {
            assert(t[j - i - 1] == v@[j - 1]);
        }
        lemma_trim_end_at(t, p, j - i);
        assert(t.subrange(0, j - i) =~= v@.subrange(i as int, j as int));
    }
    copy_range(v, i, j)
}

/// ASCII upper-casing of one character (other characters are unchanged).
pub open spec fn ascii_upper_char(c: char) -> char {
    if 'a' <= c <= 'z' {
        ((c as u32) - 32) as char
    } else {
        c
    }
}

/// What `str::to_ascii_uppercase` gives back.
pub open spec fn ascii_upper(s: Seq<char>) -> Seq<char> {
    Seq::new(s.len(), |i: int| ascii_upper_char(s[i]))
}

/// ASCII upper-casing of one character.
pub fn ascii_upper_of(c: char) -> (r: char)
    ensures
        r == ascii_upper_char(c),
{
    if 'a' <= c && c <= 'z' {
        let v = (c as u32) - 32;
        char_of_ascii(v as u8)
    } else {
        c
    }
}

/// Whether `c` is Unicode white space.
pub fn is_whitespace_char(c: char) -> (b: bool)
    ensures
        b == is_ws(c),
{
    let v = c as u32;
    (0x09 <= v && v <= 0x0D) || v == 0x20 || v == 0x85 || v == 0xA0 || v == 0x1680 || (0x2000
        <= v && v <= 0x200A) || v == 0x2028 || v == 0x2029 || v == 0x202F || v == 0x205F || v
        == 0x3000
}

fn copy_range(v: &Vec<char>, i: usize, j: usize) -> (r: Vec<char>)
    requires
        i <= j <= v@.len(),
    ensures
        r@ == v@.subrange(i as int, j as int),
{
    let mut r: Vec<char> = Vec::new();
    let mut k = i;
    while k < j
        invariant
            i <= k <= j,
            j <= v@.len(),
            r@ == v@.subrange(i as int, k as int),
        decreases j - k,
    {
        r.push(v[k]);
        assert(r@ =~= v@.subrange(i as int, k + 1));
        k = k + 1;
    }
    r
}

/// `v` without leading and trailing white space (`str::trim`).
pub fn trim_whitespace(v: &Vec<char>) -> (r: Vec<char>)
    ensures
        r@ == trim_ws(v@),
{
    let ghost p = |c: char| is_ws(c);
    let n = v.len();
    let mut i: usize = 0;
    while i < n && is_whitespace_char(v[i])
        invariant
            i <= n,
            n == v@.len(),
            forall|k: int| 0 <= k < i ==> #[trigger] is_ws(v@[k]),
        decreases n - i,
    {
        i = i + 1;
    }
    proof {
        lemma_trim_start_at(v@, p, i as int);
    }
    let mut j: usize = n;
    while j > i && is_whitespace_char(v[j - 1])
        invariant
            i <= j <= n,
            n == v@.len(),
            forall|k: int| j <= k < n ==> #[trigger] is_ws(v@[k]),
        decreases j,
    {
        j = j - 1;
    }
    let ghost t = v@.subrange(i as int, n as int);
    proof {
        assert forall|k: int| j - i <= k < t.len() implies p(t[k]) by {
            assert(t[k] == v@[i + k]);
        }
        if j > i {
            assert(t[j - i - 1] == v@[j - 1]);
        }
        lemma_trim_end_at(t, p, j - i);
        assert(t.subrange(0, j - i) =~= v@.subrange(i as int, j as int));
    }
    copy_range(v, i, j)
}

/// `v` without leading and trailing NUL characters (`str::trim_matches('\0')`).
pub fn trim_nul_chars(v: &Vec<char>) -> (r: Vec<char>)
    ensures
        r@ == trim_nul(v@),
{
    let ghost p = |c: char| is_nul(c);
    let n = v.len();
    let mut i: usize = 0;
    while i < n && v[i] == '\0'
        invariant
            i <= n,
            n == v@.len(),
            forall|k: int| 0 <= k < i ==> #[trigger] is_nul(v@[k]),
        decreases n - i,
    {
        i = i + 1;
    }
    proof {
        lemma_trim_start_at(v@, p, i as int);
    }
    let mut j: usize = n;
    while j > i && v[j - 1] == '\0'
        invariant
            i <= j <= n,
            n == v@.len(),
            forall|k: int| j <= k < n ==> #[trigger] is_nul(v@[k]),
        decreases j,
    {
        j = j - 1;
    }
    let ghost t = v@.subrange(i as int, n as int);
    proof {
        assert forall|k: int| j - i <= k < t.len() implies p(t[k]) by {
            assert(t[k] == v@[i + k]);
        }
        if j > i {
            assert(t[j - i - 1] == v@[j - 1]);
        }
        lemma_trim_end_at(t, p, j - i);
        assert(t.subrange(0, j - i) =~= v@.subrange(i as int, j as int));
    }
    copy_range(v, i, j)
}

/// ASCII lower-casing of one character.
pub fn ascii_lower_of(c: char) -> (r: char)
    ensures
        r == ascii_lower_char(c),
{
    if 'A' <= c && c <= 'Z' {
        let v = (c as u32) + 32;
        assert(v < 0xD800);
        char_of_ascii(v as u8)
    } else {
        c
    }
}

/// The character with the given ASCII code.
pub fn char_of_ascii(b: u8) -> (c: char)
    requires
        b < 128,
    ensures
        c as u32 == b as u32,
{
    b as char
}

/// ASCII lower-casing of a character sequence (`to_ascii_lowercase`).
pub fn ascii_lowercase(v: &Vec<char>) -> (r: Vec<char>)
    ensures
        r@ == ascii_lower(v@),
{
    let mut r: Vec<char> = Vec::new();
    let mut k: usize = 0;
    while k < v.len()
        invariant
            k <= v@.len(),
            r@ =~= ascii_lower(v@.subrange(0, k as int)),
        decreases v@.len() - k,
    {
        let c = ascii_lower_of(v[k]);
        r.push(c);
        k = k + 1;
    }
    assert(v@.subrange(0, v@.len() as int) =~= v@);
    r
}

/// Whether some character is below 0x20.
pub fn contains_control_char(v: &Vec<char>) -> (b: bool)
    ensures
        b == has_control_char(v@),
{
    let mut k: usize = 0;
    while k < v.len()
        invariant
            k <= v@.len(),
            forall|m: int| 0 <= m < k ==> (v@[m] as u32) >= 0x20,
        decreases v@.len() - k,
    {
        if (v[k] as u32) < 0x20 {
            return true;
        }
        k = k + 1;
    }
    false
}

/// Whether two character sequences are equal.
pub fn chars_equal(a: &Vec<char>, b: &Vec<char>) -> (r: bool)
    ensures
        r == (a@ == b@),
{
    if a.len() != b.len() {
        return false;
    }
    let mut k: usize = 0;
    while k < a.len()
        invariant
            a@.len() == b@.len(),
            k <= a@.len(),
            forall|m: int| 0 <= m < k ==> a@[m] == b@[m],
        decreases a@.len() - k,
    {
        if a[k] != b[k] {
            return false;
        }
        k = k + 1;
    }
    assert(a@ =~= b@);
    true
}

/// Concatenation of two character sequences.
pub fn concat_chars(a: &Vec<char>, b: &Vec<char>) -> (r: Vec<char>)
    ensures
        r@ == a@ + b@,
{
    let mut r = a.clone();
    assert(r@ == a@);
    let mut k: usize = 0;
    while k < b.len()
        invariant
            k <= b@.len(),
            r@ =~= a@ + b@.subrange(0, k as int),
        decreases b@.len() - k,
    {
        r.push(b[k]);
        k = k + 1;
    }
    assert(b@.subrange(0, b@.len() as int) =~= b@);
    r
}

/// `.\name`.
pub fn relative_path_of(name: &Vec<char>) -> (r: Vec<char>)
    ensures
        r@ == relative_path(name@),
{
    let prefix = vec!['.', '\\'];
    assert(prefix@ =~= dot_prefix());
    concat_chars(&prefix, name)
}

/// The characters of a string slice.
pub fn chars_of(s: &str) -> (r: Vec<char>)
    ensures
        r@ == s@,
{
    let n = s.unicode_len();
    let mut r: Vec<char> = Vec::new();
    let mut k: usize = 0;
    while k < n
        invariant
            n == s@.len(),
            k <= n,
            r@ =~= s@.subrange(0, k as int),
        decreases n - k,
    {
        r.push(s.get_char(k));
        k = k + 1;
    }
    assert(s@.subrange(0, n as int) =~= s@);
    r
}

/// The ASCII digit for `d` (0 to 9).
pub open spec fn digit_char(d: int) -> char {
    (48 + d) as char
}

/// Decimal representation of `n`, as `Display` writes an unsigned integer.
pub open spec fn decimal(n: nat) -> Seq<char>
    decreases n,
{
    if n < 10 {
        seq![digit_char(n as int)]
    } else {
        decimal(n / 10).push(digit_char((n % 10) as int))
    }
}

/// Upper-case hexadecimal digit for `d` (0 to 15).
pub open spec fn hex_digit_char(d: int) -> char {
    if d < 10 {
        (48 + d) as char
    } else {
        (55 + d) as char
    }
}

/// The low `width` hexadecimal digits of `n`, upper case, most significant first.
pub open spec fn hex_fixed(n: nat, width: nat) -> Seq<char>
    decreases width,
{
    if width == 0 {
        Seq::empty()
    } else {
        hex_fixed(n / 16, (width - 1) as nat).push(hex_digit_char((n % 16) as int))
    }
}

/// Decimal digits of `n`.
pub fn decimal_chars(n: u64) -> (r: Vec<char>)
    ensures
        r@ == decimal(n as nat),
    decreases n,
{
    if n < 10 {
        vec![char_of_ascii((48 + n) as u8)]
    } else {
        let mut v = decimal_chars(n / 10);
        v.push(char_of_ascii((48 + n % 10) as u8));
        v
    }
}

/// The low `width` upper-case hexadecimal digits of `n`.
pub fn hex_chars(n: u64, width: u32) -> (r: Vec<char>)
    ensures
        r@ == hex_fixed(n as nat, width as nat),
    decreases width,
{
    if width == 0 {
        Vec::new()
    } else {
        let mut v = hex_chars(n / 16, width - 1);
        let d = n % 16;
        let c = if d < 10 {
            char_of_ascii((48 + d) as u8)
        } else {
            char_of_ascii((55 + d) as u8)
        };
        v.push(c);
        v
    }
}

/// A hexadecimal digit for `d` (0 to 15), lower case unless `upper`.
pub open spec fn hex_digit_case(d: int, upper: bool) -> char {
    if d < 10 {
        (48 + d) as char
    } else if upper {
        (55 + d) as char
    } else {
        (87 + d) as char
    }
}

/// The hexadecimal representation of `n`, as `{:x}` (or `{:X}`) writes it.
pub open spec fn hex_min(n: nat, upper: bool) -> Seq<char>
    decreases n,
{
    if n < 16 {
        seq![hex_digit_case(n as int, upper)]
    } else {
        hex_min(n / 16, upper).push(hex_digit_case((n % 16) as int, upper))
    }
}

/// `s` with zeros in front, up to `width` characters.
pub open spec fn zero_padded(s: Seq<char>, width: nat) -> Seq<char> {
    if s.len() >= width {
        s
    } else {
        Seq::new((width - s.len()) as nat, |_i: int| '0') + s
    }
}

/// The hexadecimal digits of `n`, lower case unless `upper`.
pub fn hex_min_chars(n: u64, upper: bool) -> (r: Vec<char>)
    ensures
        r@ == hex_min(n as nat, upper),
    decreases n,
{
    let d = n % 16;
    let c = if d < 10 {
        char_of_ascii((48 + d) as u8)
    } else if upper {
        char_of_ascii((55 + d) as u8)
    } else {
        char_of_ascii((87 + d) as u8)
    };
    if n < 16 {
        vec![c]
    } else {
        let mut v = hex_min_chars(n / 16, upper);
        v.push(c);
        v
    }
}

/// `v` with zeros in front, up to `width` characters.
pub fn zero_pad(v: Vec<char>, width: usize) -> (r: Vec<char>)
    ensures
        r@ == zero_padded(v@, width as nat),
{
    if v.len() >= width {
        return v;
    }
    let mut r: Vec<char> = Vec::new();
    let fill = width - v.len();
    while r.len() < fill
        invariant
            r@.len() <= fill,
            forall|i: int| 0 <= i < r@.len() ==> r@[i] == '0',
        decreases fill - r@.len(),
    {
        r.push('0');
    }
    push_chars(&mut r, &v);
    assert(r@ =~= zero_padded(v@, width as nat));
    r
}

/// Appends the characters of `s` to `v`.
pub fn push_str(v: &mut Vec<char>, s: &str)
    ensures
        final(v)@ == old(v)@ + s@,
{
    let n = s.unicode_len();
    let ghost start = v@;
    let mut k: usize = 0;
    while k < n
        invariant
            n == s@.len(),
            k <= n,
            v@ =~= start + s@.subrange(0, k as int),
        decreases n - k,
    {
        v.push(s.get_char(k));
        k = k + 1;
    }
    assert(s@.subrange(0, n as int) =~= s@);
}

/// Appends the characters of `w` to `v`.
pub fn push_chars(v: &mut Vec<char>, w: &Vec<char>)
    ensures
        final(v)@ == old(v)@ + w@,
{
    let ghost start = v@;
    let mut k: usize = 0;
    while k < w.len()
        invariant
            k <= w@.len(),
            v@ =~= start + w@.subrange(0, k as int),
        decreases w@.len() - k,
    {
        v.push(w[k]);
        k = k + 1;
    }
    assert(w@.subrange(0, w@.len() as int) =~= w@);
}

/// Builds a `String` from characters (`String::from_iter`).
#[verifier::external_body]
pub(crate) fn string_from_chars(v: &Vec<char>) -> (s: String)
    ensures
        s@ == v@,
{
    v.iter().collect::<String>()
}

/// Decodes UTF-8 (`std::str::from_utf8`): `None` exactly when the bytes are not
/// valid UTF-8, otherwise the decoded characters.
#[verifier::external_body]
pub(crate) fn utf8_str(bytes: &[u8]) -> (r: Option<&str>)
    ensures
        r.is_some() == valid_utf8(bytes@),
        r matches Some(s) ==> s@ == decode_utf8(bytes@),
{
    std::str::from_utf8(bytes).ok()
}

/// The scalar value of a surrogate pair.
pub open spec fn surrogate_pair_value(hi: u16, lo: u16) -> u32 {
    (0x10000 + (hi - 0xD800) * 0x400 + (lo - 0xDC00)) as u32
}

/// Strict UTF-16 decoding (`String::from_utf16`): `None` on an unpaired surrogate.
pub open spec fn utf16_decode(u: Seq<u16>) -> Option<Seq<char>>
    decreases u.len(),
{
    if u.len() == 0 {
        Some(Seq::empty())
    } else if u[0] < 0xD800 || u[0] >= 0xE000 {
        match utf16_decode(u.drop_first()) {
            Some(rest) => Some(seq![u[0] as char] + rest),
            None => None,
        }
    } else if u[0] < 0xDC00 && u.len() >= 2 && 0xDC00 <= u[1] < 0xE000 {
        match utf16_decode(u.subrange(2, u.len() as int)) {
            Some(rest) => Some(seq![surrogate_pair_value(u[0], u[1]) as char] + rest),
            None => None,
        }
    } else {
        None
    }
}

/// Lossy UTF-16 decoding (`String::from_utf16_lossy`): an unpaired surrogate
/// becomes U+FFFD.
pub open spec fn utf16_decode_lossy(u: Seq<u16>) -> Seq<char>
    decreases u.len(),
{
    if u.len() == 0 {
        Seq::empty()
    } else if u[0] < 0xD800 || u[0] >= 0xE000 {
        seq![u[0] as char] + utf16_decode_lossy(u.drop_first())
    } else if u[0] < 0xDC00 && u.len() >= 2 && 0xDC00 <= u[1] < 0xE000 {
        seq![surrogate_pair_value(u[0], u[1]) as char] + utf16_decode_lossy(
            u.subrange(2, u.len() as int),
        )
    } else {
        seq!['\u{FFFD}'] + utf16_decode_lossy(u.drop_first())
    }
}

/// `String::from_utf16`, with `None` in place of the error.
#[verifier::external_body]
pub(crate) fn utf16_string(units: &[u16]) -> (r: Option<String>)
    ensures
        match (r, utf16_decode(units@)) {
            (Some(s), Some(d)) => s@ == d,
            (None, None) => true,
            _ => false,
        },
{
    String::from_utf16(units).ok()
}

/// `String::from_utf16_lossy`.
#[verifier::external_body]
pub(crate) fn utf16_string_lossy(units: &[u16]) -> (s: String)
    ensures
        s@ == utf16_decode_lossy(units@),
{
    String::from_utf16_lossy(units)
}

/// Text of a fixed-capacity metadata field: valid UTF-8, NUL padding and white
/// space trimmed, non-empty and free of control characters.
pub open spec fn metadata_text(b: Seq<u8>) -> Option<Seq<char>> {
    if !valid_utf8(b) {
        None
    } else {
        let t = trim_ws(trim_nul(decode_utf8(b)));
        if t.len() == 0 || has_control_char(t) {
            None
        } else {
            Some(t)
        }
    }
}

/// Decodes a metadata text field.
pub fn decode_metadata_text(bytes: &[u8]) -> (r: Option<Vec<char>>)
    ensures
        r matches Some(v) ==> metadata_text(bytes@) == Some(v@),
        r is None ==> metadata_text(bytes@) is None,
{
    let s = match utf8_str(bytes) {
        Some(s) => s,
        None => return None,
    };
    let chars = chars_of(s);
    let t1 = trim_nul_chars(&chars);
    let t = trim_whitespace(&t1);
    if t.len() == 0 || contains_control_char(&t) {
        None
    } else {
        Some(t)
    }
}

/// A path with `/` replaced by `\`, anchored below `.\`.
pub open spec fn normalized_path(p: Seq<char>) -> Seq<char> {
    let r = Seq::new(p.len(), |i: int| if p[i] == '/' { '\\' } else { p[i] });
    if r.len() == 0 {
        dot_prefix()
    } else if r.len() >= 2 && r.subrange(0, 2) == dot_prefix() {
        r
    } else {
        dot_prefix() + trim_start_with(r, |c: char| c == '\\')
    }
}

/// Normalizes a candidate path (`normalize_candidate_path`).
pub fn normalize_candidate_path(p: &Vec<char>) -> (r: Vec<char>)
    ensures
        r@ == normalized_path(p@),
{
    let ghost rs = Seq::new(p@.len(), |i: int| if p@[i] == '/' { '\\' } else { p@[i] });
    let mut r: Vec<char> = Vec::new();
    let mut k: usize = 0;
    while k < p.len()
        invariant
            k <= p@.len(),
            r@.len() == k,
            forall|m: int| 0 <= m < k ==> r@[m] == (if p@[m] == '/' { '\\' } else { p@[m] }),
        decreases p@.len() - k,
    {
        if p[k] == '/' {
            r.push('\\');
        } else {
            r.push(p[k]);
        }
        k = k + 1;
    }
    assert(r@ =~= rs);
    if r.len() == 0 {
        let out = vec!['.', '\\'];
        assert(out@ =~= dot_prefix());
        return out;
    }
    if r.len() >= 2 && r[0] == '.' && r[1] == '\\' {
        assert(r@.subrange(0, 2) =~= dot_prefix());
        return r;
    }
    proof {
        if r@.len() >= 2 {
            assert(r@.subrange(0, 2)[0] == r@[0]);
            assert(r@.subrange(0, 2) != dot_prefix());
        }
    }
    let ghost q = |c: char| c == '\\';
    let n = r.len();
    let mut i: usize = 0;
    while i < n && r[i] == '\\'
        invariant
            i <= n,
            n == r@.len(),
            forall|m: int| 0 <= m < i ==> r@[m] == '\\',
        decreases n - i,
    {
        i = i + 1;
    }
    proof {
        lemma_trim_start_at(r@, q, i as int);
    }
    let rest = copy_range(&r, i, n);
    let prefix = vec!['.', '\\'];
    assert(prefix@ =~= dot_prefix());
    concat_chars(&prefix, &rest)
}

/// Whether `a` comes before `b` in the order of `str`: the first
/// differing character decides, and a proper prefix comes first.
pub open spec fn str_lt(a: Seq<char>, b: Seq<char>) -> bool
    decreases a.len(),
{
    if a.len() == 0 {
        b.len() > 0
    } else if b.len() == 0 {
        false
    } else if a[0] != b[0] {
        (a[0] as int) < (b[0] as int)
    } else {
        str_lt(a.drop_first(), b.drop_first())
    }
}

/// The order of `str` is strict and total.
pub proof fn lemma_str_lt_order(a: Seq<char>, b: Seq<char>, c: Seq<char>)
    ensures
        !str_lt(a, a),
        str_lt(a, b) ==> !str_lt(b, a),
        a != b ==> str_lt(a, b) || str_lt(b, a),
        str_lt(a, b) && str_lt(b, c) ==> str_lt(a, c),
    decreases a.len(),
{
    if a.len() > 0 && b.len() > 0 && c.len() > 0 {
        lemma_str_lt_order(a.drop_first(), b.drop_first(), c.drop_first());
    } else if a.len() > 0 && b.len() > 0 {
        lemma_str_lt_order(a.drop_first(), b.drop_first(), b.drop_first());
    } else if a.len() > 0 {
        lemma_str_lt_order(a.drop_first(), a.drop_first(), a.drop_first());
    }
    if a.len() > 0 && b.len() > 0 && a[0] == b[0] && a != b {
        assert(a.drop_first() != b.drop_first()) by {
            if a.drop_first() == b.drop_first() {
                assert(a =~= seq![a[0]] + a.drop_first());
                assert(b =~= seq![b[0]] + b.drop_first());
            }
        }
    }
    if a.len() == 0 && b.len() == 0 {
        assert(a =~= b);
    }
}

/// Whether `a` comes before `b` (see `str_lt`).
pub fn chars_lt(a: &Vec<char>, b: &Vec<char>) -> (r: bool)
    ensures
        r == str_lt(a@, b@),
{
    let mut i: usize = 0;
    assert(a@.skip(0) =~= a@ && b@.skip(0) =~= b@);
    while i < a.len() && i < b.len() && a[i] == b[i]
        invariant
            i <= a@.len(),
            i <= b@.len(),
            str_lt(a@, b@) == str_lt(a@.skip(i as int), b@.skip(i as int)),
        decreases a@.len() - i,
    {
        assert(a@.skip(i as int).drop_first() =~= a@.skip(i + 1));
        assert(b@.skip(i as int).drop_first() =~= b@.skip(i + 1));
        i = i + 1;
    }
    if i == a.len() {
        i < b.len()
    } else if i == b.len() {
        false
    } else {
        a[i] < b[i]
    }
}

} // verus!
