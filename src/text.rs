//! Character- and byte-level helpers shared by the codec, the framer and the
//! session: decimal rendering, XML escaping and substring search.
use vstd::prelude::*;

verus! {

/// The character of a decimal digit.
pub open spec fn digit_char(d: nat) -> char {
    if d == 0 {
        '0'
    } else if d == 1 {
        '1'
    } else if d == 2 {
        '2'
    } else if d == 3 {
        '3'
    } else if d == 4 {
        '4'
    } else if d == 5 {
        '5'
    } else if d == 6 {
        '6'
    } else if d == 7 {
        '7'
    } else if d == 8 {
        '8'
    } else {
        '9'
    }
}

/// The shortest decimal rendering of `n`.
pub open spec fn decimal(n: nat) -> Seq<char>
    decreases n,
{
    if n < 10 {
        seq![digit_char(n)]
    } else {
        decimal(n / 10) + seq![digit_char(n % 10)]
    }
}

fn digit_str(d: u32) -> (r: &'static str)
    requires
        d < 10,
    ensures
        r@ == seq![digit_char(d as nat)],
{
    proof {
        reveal_strlit("0");
        reveal_strlit("1");
        reveal_strlit("2");
        reveal_strlit("3");
        reveal_strlit("4");
        reveal_strlit("5");
        reveal_strlit("6");
        reveal_strlit("7");
        reveal_strlit("8");
        reveal_strlit("9");
    }
    match d {
        0 => "0",
        1 => "1",
        2 => "2",
        3 => "3",
        4 => "4",
        5 => "5",
        6 => "6",
        7 => "7",
        8 => "8",
        _ => "9",
    }
}

/// Appends the decimal rendering of `n` to `s`.
pub fn append_decimal(s: &mut String, n: u32)
    ensures
        final(s)@ == old(s)@ + decimal(n as nat),
    decreases n,
{
    if n >= 10 {
        append_decimal(s, n / 10);
    }
    s.append(digit_str(n % 10));
    assert(s@ =~= old(s)@ + decimal(n as nat));
}

/// What XML escaping makes of one character: the five markup characters
/// become entity references, every other character stands for itself.
pub open spec fn escape_char(c: char) -> Seq<char> {
    if c == '<' {
        seq!['&', 'l', 't', ';']
    } else if c == '>' {
        seq!['&', 'g', 't', ';']
    } else if c == '\'' {
        seq!['&', 'a', 'p', 'o', 's', ';']
    } else if c == '&' {
        seq!['&', 'a', 'm', 'p', ';']
    } else if c == '"' {
        seq!['&', 'q', 'u', 'o', 't', ';']
    } else {
        seq![c]
    }
}

/// XML escaping of a whole text, character by character.
pub open spec fn xml_escape(s: Seq<char>) -> Seq<char>
    decreases s.len(),
{
    if s.len() == 0 {
        seq![]
    } else {
        xml_escape(s.drop_last()) + escape_char(s.last())
    }
}

/// Relies on quick_xml::escape::escape, the escaping that quick-xml's
/// serializer applies to text and attribute values: each of `<`, `>`, `'`,
/// `&` and `"` becomes its entity reference and every other byte is kept.
#[verifier::external_body]
pub(crate) fn escape_text(s: &str) -> (r: String)
    ensures
        r@ == xml_escape(s@),
{
    String::from_utf8_lossy(&quick_xml::escape::escape(s.as_bytes())).into_owned()
}

/// `p` occurs in `t` starting at index `i`.
pub open spec fn occurs_at<T>(t: Seq<T>, p: Seq<T>, i: int) -> bool {
    0 <= i && i + p.len() <= t.len() && t.subrange(i, i + p.len()) == p
}

/// The first index at or after `k` where `p` occurs in `t`.
pub open spec fn first_from<T>(t: Seq<T>, p: Seq<T>, k: nat) -> Option<nat>
    decreases t.len() - k,
{
    if k + p.len() > t.len() {
        None
    } else if occurs_at(t, p, k as int) {
        Some(k)
    } else if k < t.len() {
        first_from(t, p, k + 1)
    } else {
        None
    }
}

/// The last index strictly below `n` where `p` occurs in `t`.
pub open spec fn last_below<T>(t: Seq<T>, p: Seq<T>, n: nat) -> Option<nat>
    decreases n,
{
    if n == 0 {
        None
    } else if occurs_at(t, p, n - 1) {
        Some((n - 1) as nat)
    } else {
        last_below(t, p, (n - 1) as nat)
    }
}

/// The view of an optional index.
pub open spec fn opt_nat(r: Option<usize>) -> Option<nat> {
    match r {
        Some(i) => Some(i as nat),
        None => None,
    }
}

/// Whether `p` occurs in the bytes `t` at index `i`.
pub fn bytes_match_at(t: &[u8], p: &[u8], i: usize) -> (r: bool)
    ensures
        r == occurs_at(t@, p@, i as int),
{
    if p.len() > t.len() || i > t.len() - p.len() {
        return false;
    }
    let n: usize = t.len();
    let mut j: usize = 0;
    while j < p.len()
        invariant
            n == t@.len(),
            i + p@.len() <= t@.len(),
            j <= p@.len(),
            t@.subrange(i as int, i + j) =~= p@.subrange(0, j as int),
        decreases p@.len() - j,
    {
        if t[i + j] != p[j] {
            assert(t@.subrange(i as int, i + p@.len())[j as int] != p@[j as int]);
            return false;
        }
        j = j + 1;
    }
    assert(t@.subrange(i as int, i + p@.len()) =~= p@);
    true
}

/// The first index at or after `k` where the bytes `p` occur in `t`.
pub fn find_bytes(t: &[u8], p: &[u8], k: usize) -> (r: Option<usize>)
    ensures
        opt_nat(r) == first_from(t@, p@, k as nat),
{
    let mut i: usize = k;
    while i <= t.len() && p.len() <= t.len() - i
        invariant
            k <= i,
            first_from(t@, p@, k as nat) == first_from(t@, p@, i as nat),
        decreases t@.len() - i,
    {
        if bytes_match_at(t, p, i) {
            return Some(i);
        }
        if i == t.len() {
            return None;
        }
        i = i + 1;
    }
    None
}

/// Whether the bytes `t` end with the bytes `p`.
pub fn ends_with_bytes(t: &[u8], p: &[u8]) -> (r: bool)
    ensures
        r == (p@.len() <= t@.len() && occurs_at(t@, p@, t@.len() - p@.len())),
{
    if p.len() > t.len() {
        false
    } else {
        bytes_match_at(t, p, t.len() - p.len())
    }
}

/// Whether `p` occurs in `t` at character index `i`.
pub fn chars_match_at(t: &str, p: &str, i: usize) -> (r: bool)
    ensures
        r == occurs_at(t@, p@, i as int),
{
    let n: usize = t.unicode_len();
    let m: usize = p.unicode_len();
    if m > n || i > n - m {
        return false;
    }
    let mut j: usize = 0;
    while j < m
        invariant
            n == t@.len(),
            m == p@.len(),
            i + m <= n,
            j <= m,
            t@.subrange(i as int, i + j) =~= p@.subrange(0, j as int),
        decreases m - j,
    {
        if t.get_char(i + j) != p.get_char(j) {
            assert(t@.subrange(i as int, i + m)[j as int] != p@[j as int]);
            return false;
        }
        j = j + 1;
    }
    assert(t@.subrange(i as int, i + m) =~= p@);
    true
}

/// The last character index where `p` occurs in `t`.
pub fn rfind_str(t: &str, p: &str) -> (r: Option<usize>)
    ensures
        opt_nat(r) == last_below(t@, p@, t@.len()),
{
    let mut i: usize = t.unicode_len();
    while i > 0
        invariant
            i <= t@.len(),
            last_below(t@, p@, t@.len()) == last_below(t@, p@, i as nat),
        decreases i,
    {
        if chars_match_at(t, p, i - 1) {
            return Some(i - 1);
        }
        i = i - 1;
    }
    None
}

/// A found occurrence lies below the bound and is one.
pub proof fn lemma_last_below_occurs<T>(t: Seq<T>, p: Seq<T>, n: nat)
    ensures
        last_below(t, p, n) matches Some(i) ==> i < n && occurs_at(t, p, i as int),
    decreases n,
{
    if n > 0 && !occurs_at(t, p, n - 1) {
        lemma_last_below_occurs(t, p, (n - 1) as nat);
    }
}

/// An occurrence at `i` is the last one below `n` when no later index below
/// `n` holds the first element of `p`.
pub proof fn lemma_last_below_at<T>(t: Seq<T>, p: Seq<T>, n: nat, i: nat)
    requires
        occurs_at(t, p, i as int),
        i < n <= t.len(),
        p.len() > 0,
        forall|q: int| i < q < n ==> t[q] != p[0],
    ensures
        last_below(t, p, n) == Some(i),
    decreases n,
{
    if n - 1 != i {
        if n - 1 + p.len() <= t.len() {
            assert(t.subrange(n - 1, n - 1 + p.len())[0] == t[n - 1]);
        }
        lemma_last_below_at(t, p, (n - 1) as nat, i);
    }
}

/// A found occurrence lies at or after the start and is one.
pub proof fn lemma_first_from_occurs<T>(t: Seq<T>, p: Seq<T>, k: nat)
    ensures
        first_from(t, p, k) matches Some(i) ==> k <= i && i + p.len() <= t.len() && occurs_at(
            t,
            p,
            i as int,
        ),
    decreases t.len() - k,
{
    if k + p.len() <= t.len() && !occurs_at(t, p, k as int) && k < t.len() {
        lemma_first_from_occurs(t, p, k + 1);
    }
}

/// An occurrence at `j` with none in `[k, j)` is the first one from `k`.
pub proof fn lemma_first_from_at<T>(t: Seq<T>, p: Seq<T>, k: nat, j: nat)
    requires
        k <= j,
        occurs_at(t, p, j as int),
        forall|i: int| k <= i < j ==> !occurs_at(t, p, i),
    ensures
        first_from(t, p, k) == Some(j),
    decreases j - k,
{
    if k < j {
        lemma_first_from_at(t, p, k + 1, j);
    }
}

/// The text that the bytes `b` decode to, invalid sequences replaced.
pub uninterp spec fn utf8_lossy(b: Seq<u8>) -> Seq<char>;

/// Relies on String::from_utf8_lossy: the text depends on the bytes alone,
/// and no bytes give the empty text.
#[verifier::external_body]
pub(crate) fn text_of_bytes(b: &[u8]) -> (r: String)
    ensures
        r@ == utf8_lossy(b@),
        b@.len() == 0 ==> r@.len() == 0,
{
    String::from_utf8_lossy(b).into_owned()
}

/// The value of a decimal digit character, if it is one.
pub open spec fn digit_value(c: char) -> Option<nat> {
    if c == '0' {
        Some(0)
    } else if c == '1' {
        Some(1)
    } else if c == '2' {
        Some(2)
    } else if c == '3' {
        Some(3)
    } else if c == '4' {
        Some(4)
    } else if c == '5' {
        Some(5)
    } else if c == '6' {
        Some(6)
    } else if c == '7' {
        Some(7)
    } else if c == '8' {
        Some(8)
    } else if c == '9' {
        Some(9)
    } else {
        None
    }
}

pub open spec fn is_digit(c: char) -> bool {
    digit_value(c) is Some
}

/// The number that a run of digits denotes.
pub open spec fn digits_value(s: Seq<char>) -> nat
    decreases s.len(),
{
    if s.len() == 0 {
        0
    } else {
        digits_value(s.drop_last()) * 10 + digit_value(s.last()).unwrap_or(0)
    }
}

/// The number of digits with which `s` starts at index `k`.
pub open spec fn digit_run(s: Seq<char>, k: nat) -> nat
    decreases s.len() - k,
{
    if k < s.len() && is_digit(s[k as int]) {
        digit_run(s, k + 1) + 1
    } else {
        0
    }
}

/// A digit character reads back as its digit.
pub proof fn lemma_digit_char_value(d: nat)
    requires
        d < 10,
    ensures
        digit_value(digit_char(d)) == Some(d),
{
}

/// A decimal rendering is a non-empty run of digits denoting the number.
pub proof fn lemma_decimal_digits(n: nat)
    ensures
        decimal(n).len() > 0,
        forall|i: int| 0 <= i < decimal(n).len() ==> is_digit(#[trigger] decimal(n)[i]),
        digits_value(decimal(n)) == n,
    decreases n,
{
    if n >= 10 {
        lemma_decimal_digits(n / 10);
        let d = decimal(n);
        assert(d.drop_last() =~= decimal(n / 10));
        assert forall|i: int| 0 <= i < d.len() implies is_digit(#[trigger] d[i]) by {
            if i < d.len() - 1 {
                assert(d[i] == decimal(n / 10)[i]);
            }
        }
        assert(n == (n / 10) * 10 + n % 10) by {
            vstd::arithmetic::div_mod::lemma_fundamental_div_mod(n as int, 10);
        }
        lemma_digit_char_value(n % 10);
        assert(d.last() == digit_char(n % 10));
        assert(digits_value(d) == digits_value(d.drop_last()) * 10 + digit_value(
            d.last(),
        ).unwrap_or(0));
        assert(digits_value(d) == (n / 10) * 10 + n % 10);
    } else {
        let d = decimal(n);
        assert(d.drop_last() =~= Seq::<char>::empty());
        lemma_digit_char_value(n);
        assert(d.last() == digit_char(n));
        assert(digits_value(d) == digits_value(d.drop_last()) * 10 + digit_value(
            d.last(),
        ).unwrap_or(0));
    }
}

/// The run of digits at `k` covers a digit-only stretch up to the first
/// non-digit.
pub proof fn lemma_digit_run_of(s: Seq<char>, k: nat, run: Seq<char>)
    requires
        k + run.len() <= s.len(),
        s.subrange(k as int, (k + run.len()) as int) == run,
        forall|i: int| 0 <= i < run.len() ==> is_digit(#[trigger] run[i]),
        k + run.len() < s.len() ==> !is_digit(s[(k + run.len()) as int]),
    ensures
        digit_run(s, k) == run.len(),
    decreases run.len(),
{
    if run.len() > 0 {
        assert(s[k as int] == run[0]);
        let rest = run.drop_first();
        assert(s.subrange(k + 1 as int, (k + 1 + rest.len()) as int) =~= rest);
        assert forall|i: int| 0 <= i < rest.len() implies is_digit(#[trigger] rest[i]) by {
            assert(rest[i] == run[i + 1]);
        }
        lemma_digit_run_of(s, k + 1, rest);
    }
}

/// A character that may stand in an element name as this library writes
/// them.
pub open spec fn is_name_char(c: char) -> bool {
    c != '>' && c != '/' && c != '<' && c != ' ' && c != '"' && c != '='
}

/// The number of name characters with which `s` continues at index `k`.
pub open spec fn name_run(s: Seq<char>, k: nat) -> nat
    decreases s.len() - k,
{
    if k < s.len() && is_name_char(s[k as int]) {
        name_run(s, k + 1) + 1
    } else {
        0
    }
}

/// The run of name characters at `k` is `run` when a non-name character (or
/// the end) follows it.
pub proof fn lemma_name_run_of(s: Seq<char>, k: nat, run: Seq<char>)
    requires
        k + run.len() <= s.len(),
        s.subrange(k as int, (k + run.len()) as int) == run,
        forall|i: int| 0 <= i < run.len() ==> is_name_char(#[trigger] run[i]),
        k + run.len() < s.len() ==> !is_name_char(s[(k + run.len()) as int]),
    ensures
        name_run(s, k) == run.len(),
    decreases run.len(),
{
    if run.len() > 0 {
        assert(s[k as int] == run[0]);
        let rest = run.drop_first();
        assert(s.subrange(k + 1 as int, (k + 1 + rest.len()) as int) =~= rest);
        assert forall|i: int| 0 <= i < rest.len() implies is_name_char(#[trigger] rest[i]) by {
            assert(rest[i] == run[i + 1]);
        }
        lemma_name_run_of(s, k + 1, rest);
    }
}

fn name_char(c: char) -> (r: bool)
    ensures
        r == is_name_char(c),
{
    c != '>' && c != '/' && c != '<' && c != ' ' && c != '"' && c != '='
}

/// The index just past the run of name characters at `k`.
pub fn name_end(t: &str, k: usize) -> (r: usize)
    requires
        k <= t@.len(),
    ensures
        r == k + name_run(t@, k as nat),
        r <= t@.len(),
{
    let n: usize = t.unicode_len();
    let mut i: usize = k;
    while i < n && name_char(t.get_char(i))
        invariant
            n == t@.len(),
            k <= i <= n,
            forall|j: int| k <= j < i ==> is_name_char(#[trigger] t@[j]),
        decreases n - i,
    {
        i = i + 1;
    }
    proof {
        let run = t@.subrange(k as int, i as int);
        assert forall|j: int| 0 <= j < run.len() implies is_name_char(#[trigger] run[j]) by {
            assert(run[j] == t@[k + j]);
        }
        lemma_name_run_of(t@, k as nat, run);
    }
    i
}

/// The first character index at or after `k` where `p` occurs in `t`.
pub fn find_str(t: &str, p: &str, k: usize) -> (r: Option<usize>)
    ensures
        opt_nat(r) == first_from(t@, p@, k as nat),
{
    let n: usize = t.unicode_len();
    let m: usize = p.unicode_len();
    let mut i: usize = k;
    while i <= n && m <= n - i
        invariant
            n == t@.len(),
            m == p@.len(),
            k <= i,
            first_from(t@, p@, k as nat) == first_from(t@, p@, i as nat),
        decreases n - i,
    {
        if chars_match_at(t, p, i) {
            return Some(i);
        }
        if i == n {
            return None;
        }
        i = i + 1;
    }
    None
}

/// Escaped text holds no `>`.
pub proof fn lemma_escape_no_close(s: Seq<char>)
    ensures
        forall|i: int| 0 <= i < xml_escape(s).len() ==> #[trigger] xml_escape(s)[i] != '>',
    decreases s.len(),
{
    if s.len() > 0 {
        lemma_escape_no_close(s.drop_last());
        let a = xml_escape(s.drop_last());
        let b = escape_char(s.last());
        assert(xml_escape(s) == a + b);
        assert forall|i: int| 0 <= i < b.len() implies #[trigger] b[i] != '>' by {}
        assert forall|i: int| 0 <= i < (a + b).len() implies #[trigger] (a + b)[i] != '>' by {
            if i >= a.len() {
                assert((a + b)[i] == b[i - a.len()]);
            } else {
                assert((a + b)[i] == a[i]);
            }
        }
    }
}

/// The number of characters other than `<` with which `s` continues at `k`.
pub open spec fn text_run(s: Seq<char>, k: nat) -> nat
    decreases s.len() - k,
{
    if k < s.len() && s[k as int] != '<' {
        text_run(s, k + 1) + 1
    } else {
        0
    }
}

/// The run of text at `k` is `run` when a `<` (or the end) follows it.
pub proof fn lemma_text_run_of(s: Seq<char>, k: nat, run: Seq<char>)
    requires
        k + run.len() <= s.len(),
        s.subrange(k as int, (k + run.len()) as int) == run,
        forall|i: int| 0 <= i < run.len() ==> #[trigger] run[i] != '<',
        k + run.len() < s.len() ==> s[(k + run.len()) as int] == '<',
    ensures
        text_run(s, k) == run.len(),
    decreases run.len(),
{
    if run.len() > 0 {
        assert(s[k as int] == run[0]);
        let rest = run.drop_first();
        assert(s.subrange(k + 1 as int, (k + 1 + rest.len()) as int) =~= rest);
        assert forall|i: int| 0 <= i < rest.len() implies #[trigger] rest[i] != '<' by {
            assert(rest[i] == run[i + 1]);
        }
        lemma_text_run_of(s, k + 1, rest);
    }
}

/// The index just past the run of text at `k`.
pub fn text_end(t: &str, k: usize) -> (r: usize)
    requires
        k <= t@.len(),
    ensures
        r == k + text_run(t@, k as nat),
        r <= t@.len(),
{
    let n: usize = t.unicode_len();
    let mut i: usize = k;
    while i < n && t.get_char(i) != '<'
        invariant
            n == t@.len(),
            k <= i <= n,
            forall|j: int| k <= j < i ==> #[trigger] t@[j] != '<',
        decreases n - i,
    {
        i = i + 1;
    }
    proof {
        let run = t@.subrange(k as int, i as int);
        assert forall|j: int| 0 <= j < run.len() implies #[trigger] run[j] != '<' by {
            assert(run[j] == t@[k + j]);
        }
        lemma_text_run_of(t@, k as nat, run);
    }
    i
}

/// Text without markup characters escapes to itself.
pub proof fn lemma_escape_plain(s: Seq<char>)
    requires
        forall|i: int|
            0 <= i < s.len() ==> #[trigger] s[i] != '<' && s[i] != '>' && s[i] != '&' && s[i]
                != '\'' && s[i] != '"',
    ensures
        xml_escape(s) == s,
    decreases s.len(),
{
    if s.len() > 0 {
        assert forall|i: int| 0 <= i < s.drop_last().len() implies #[trigger] s.drop_last()[i]
            != '<' && s.drop_last()[i] != '>' && s.drop_last()[i] != '&' && s.drop_last()[i]
            != '\'' && s.drop_last()[i] != '"' by {
            assert(s.drop_last()[i] == s[i]);
        }
        lemma_escape_plain(s.drop_last());
        assert(s[s.len() - 1] == s.last());
        assert(s =~= s.drop_last() + seq![s.last()]);
    }
}

/// `s` begins with `p`.
pub open spec fn starts_with(s: Seq<char>, p: Seq<char>) -> bool {
    p.len() <= s.len() && s.subrange(0, p.len() as int) == p
}

/// Undoes XML escaping from the front: each of the five entity references
/// becomes its character, every other character stands for itself.
pub open spec fn xml_unescape(s: Seq<char>) -> Seq<char>
    decreases s.len(),
{
    if s.len() == 0 {
        seq![]
    } else if starts_with(s, seq!['&', 'l', 't', ';']) {
        seq!['<'] + xml_unescape(s.subrange(4, s.len() as int))
    } else if starts_with(s, seq!['&', 'g', 't', ';']) {
        seq!['>'] + xml_unescape(s.subrange(4, s.len() as int))
    } else if starts_with(s, seq!['&', 'a', 'p', 'o', 's', ';']) {
        seq!['\''] + xml_unescape(s.subrange(6, s.len() as int))
    } else if starts_with(s, seq!['&', 'a', 'm', 'p', ';']) {
        seq!['&'] + xml_unescape(s.subrange(5, s.len() as int))
    } else if starts_with(s, seq!['&', 'q', 'u', 'o', 't', ';']) {
        seq!['"'] + xml_unescape(s.subrange(6, s.len() as int))
    } else {
        seq![s[0]] + xml_unescape(s.drop_first())
    }
}

/// Escaping distributes over concatenation.
pub proof fn lemma_escape_concat(a: Seq<char>, b: Seq<char>)
    ensures
        xml_escape(a + b) == xml_escape(a) + xml_escape(b),
    decreases b.len(),
{
    if b.len() > 0 {
        assert((a + b).drop_last() =~= a + b.drop_last());
        assert((a + b).last() == b.last());
        lemma_escape_concat(a, b.drop_last());
    } else {
        assert(a + b =~= a);
        assert(xml_escape(a) + xml_escape(b) =~= xml_escape(a));
    }
}

/// Unescaping reads one escaped character off the front.
proof fn lemma_unescape_char(c: char, r: Seq<char>)
    ensures
        xml_unescape(escape_char(c) + r) == seq![c] + xml_unescape(r),
{
    let x = escape_char(c) + r;
    if c == '<' {
        assert(x.subrange(0, 4) =~= seq!['&', 'l', 't', ';']);
        assert(x.subrange(4, x.len() as int) =~= r);
    } else if c == '>' {
        assert(x.subrange(0, 4) =~= seq!['&', 'g', 't', ';']);
        assert(x[1] == 'g');
        assert(x.subrange(4, x.len() as int) =~= r);
    } else if c == '\'' {
        assert(x.subrange(0, 6) =~= seq!['&', 'a', 'p', 'o', 's', ';']);
        assert(x[1] == 'a');
        assert(x.subrange(6, x.len() as int) =~= r);
    } else if c == '&' {
        assert(x.subrange(0, 5) =~= seq!['&', 'a', 'm', 'p', ';']);
        assert(x[1] == 'a' && x[2] == 'm');
        assert(x.subrange(5, x.len() as int) =~= r);
    } else if c == '"' {
        assert(x.subrange(0, 6) =~= seq!['&', 'q', 'u', 'o', 't', ';']);
        assert(x[1] == 'q');
        assert(x.subrange(6, x.len() as int) =~= r);
    } else {
        assert(x[0] == c);
        assert(x.drop_first() =~= r);
    }
}

/// Unescaping undoes escaping.
pub proof fn lemma_unescape_escape(s: Seq<char>)
    ensures
        xml_unescape(xml_escape(s)) == s,
    decreases s.len(),
{
    if s.len() > 0 {
        let c = s[0];
        let t = s.drop_first();
        assert(s =~= seq![c] + t);
        lemma_escape_concat(seq![c], t);
        assert(seq![c].drop_last() =~= Seq::<char>::empty());
        assert(seq![c].last() == c);
        assert(xml_escape(seq![c]) == xml_escape(Seq::<char>::empty()) + escape_char(c));
        assert(xml_escape(seq![c]) =~= escape_char(c));
        lemma_unescape_char(c, xml_escape(t));
        lemma_unescape_escape(t);
    }
}

/// Escaped text holds no `"`, and is empty only for empty text.
pub proof fn lemma_escape_no_quote(s: Seq<char>)
    ensures
        forall|i: int| 0 <= i < xml_escape(s).len() ==> #[trigger] xml_escape(s)[i] != '"',
        xml_escape(s).len() >= s.len(),
    decreases s.len(),
{
    if s.len() > 0 {
        lemma_escape_no_quote(s.drop_last());
        let a = xml_escape(s.drop_last());
        let b = escape_char(s.last());
        assert(xml_escape(s) == a + b);
        assert forall|i: int| 0 <= i < (a + b).len() implies #[trigger] (a + b)[i] != '"' by {
            if i >= a.len() {
                assert((a + b)[i] == b[i - a.len()]);
            } else {
                assert((a + b)[i] == a[i]);
            }
        }
    }
}

} // verus!
