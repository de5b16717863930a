//! Character-level helpers on strings.

use vstd::prelude::*;

verus! {

/// `String::push`: appends one character at the end.
#[verifier::external_body]
pub(crate) fn push_char(s: &mut String, c: char)
    ensures
        final(s)@ == old(s)@.push(c),
{
    s.push(c)
}

/// The characters of `s`, in order.
pub fn chars_of(s: &str) -> (v: Vec<char>)
    ensures
        v@ == s@,
{
    let mut v: Vec<char> = Vec::new();
    for c in it: s.chars()
        invariant
            v@ == it.seq().take(it.index() as int),
            it.seq() == s@,
    {
        v.push(c);
    }
    v
}


// ---- whitespace and trimming -------------------------------------------------

/// Unicode `White_Space`, as `char::is_whitespace` defines it.
pub open spec fn is_space(c: char) -> bool {
    ||| '\t' <= c <= '\r'
    ||| c == ' '
    ||| c == '\u{85}'
    ||| c == '\u{a0}'
    ||| c == '\u{1680}'
    ||| '\u{2000}' <= c <= '\u{200a}'
    ||| c == '\u{2028}'
    ||| c == '\u{2029}'
    ||| c == '\u{202f}'
    ||| c == '\u{205f}'
    ||| c == '\u{3000}'
}

pub fn is_whitespace(c: char) -> (b: bool)
    ensures
        b == is_space(c),
{
    ('\t' <= c && c <= '\r') || c == ' ' || c == '\u{85}' || c == '\u{a0}' || c == '\u{1680}' || (
    '\u{2000}' <= c && c <= '\u{200a}') || c == '\u{2028}' || c == '\u{2029}' || c == '\u{202f}'
        || c == '\u{205f}' || c == '\u{3000}'
}

/// `s` without its leading whitespace.
pub open spec fn trim_start(s: Seq<char>) -> Seq<char>
    decreases s.len(),
{
    if s.len() > 0 && is_space(s[0]) {
        trim_start(s.drop_first())
    } else {
        s
    }
}

/// `s` without its trailing whitespace.
pub open spec fn trim_end(s: Seq<char>) -> Seq<char>
    decreases s.len(),
{
    if s.len() > 0 && is_space(s.last()) {
        trim_end(s.drop_last())
    } else {
        s
    }
}

/// `s` without leading and trailing whitespace (`str::trim`).
pub open spec fn trimmed(s: Seq<char>) -> Seq<char> {
    trim_end(trim_start(s))
}

/// A text made of whitespace only (possibly empty).
pub open spec fn blank(s: Seq<char>) -> bool {
    trimmed(s).len() == 0
}

/// The characters `v[from..to]` as a string.
fn collect(v: &Vec<char>, from: usize, to: usize) -> (s: String)
    requires
        from <= to <= v@.len(),
    ensures
        s@ == v@.subrange(from as int, to as int),
{
    let mut s = String::new();
    let mut i = from;
    while i < to
        invariant
            from <= i <= to <= v@.len(),
            s@ == v@.subrange(from as int, i as int),
        decreases to - i,
    {
        push_char(&mut s, v[i]);
        i = i + 1;
        assert(s@ =~= v@.subrange(from as int, i as int));
    }
    s
}

/// `str::trim`: the text without leading and trailing whitespace.
pub fn trim(s: &str) -> (t: String)
    ensures
        t@ == trimmed(s@),
{
    let v = chars_of(s);
    let n = v.len();
    let mut a: usize = 0;
    assert(v@.subrange(0, n as int) =~= s@);
    while a < n && is_whitespace(v[a])
        invariant
            v@ == s@,
            n == v@.len(),
            a <= n,
            trim_start(s@) == trim_start(v@.subrange(a as int, n as int)),
        decreases n - a,
    {
        assert(v@.subrange(a as int, n as int).drop_first() =~= v@.subrange(a + 1, n as int));
        a = a + 1;
    }
    assert(trim_start(s@) == v@.subrange(a as int, n as int));
    let mut b: usize = n;
    while b > a && is_whitespace(v[b - 1])
        invariant
            v@ == s@,
            n == v@.len(),
            a <= b <= n,
            trimmed(s@) == trim_end(v@.subrange(a as int, b as int)),
        decreases b,
    {
        assert(v@.subrange(a as int, b as int).drop_last() =~= v@.subrange(a as int, b - 1));
        b = b - 1;
    }
    collect(&v, a, b)
}

/// Whether the text is whitespace only (`s.trim().is_empty()`).
pub fn is_blank(s: &str) -> (b: bool)
    ensures
        b == blank(s@),
{
    let t = trim(s);
    t.as_str().unicode_len() == 0
}

// ---- lines ---------------------------------------------------------------------

/// The line without one trailing carriage return.
pub open spec fn strip_cr(l: Seq<char>) -> Seq<char> {
    if l.len() > 0 && l.last() == '\r' {
        l.drop_last()
    } else {
        l
    }
}

/// `k` is the position of the first line feed in `s`.
pub open spec fn first_newline(s: Seq<char>, k: int) -> bool {
    &&& 0 <= k < s.len()
    &&& s[k] == '\n'
    &&& forall|j: int| 0 <= j < k ==> s[j] != '\n'
}

/// `str::lines`: the text cut at each line feed, the line feed and a carriage
/// return just before it removed; a final line feed ends the last line rather
/// than starting an empty one.
pub open spec fn lines_of(s: Seq<char>) -> Seq<Seq<char>>
    decreases s.len(),
{
    if s.len() == 0 {
        seq![]
    } else if exists|k: int| first_newline(s, k) {
        let k = choose|k: int| first_newline(s, k);
        seq![strip_cr(s.take(k))] + lines_of(s.skip(k + 1))
    } else {
        seq![s]
    }
}

proof fn lemma_first_newline_unique(s: Seq<char>, k: int, m: int)
    requires
        first_newline(s, k),
        first_newline(s, m),
    ensures
        k == m,
{
    if k < m {
        assert(s[k] != '\n');
    } else if m < k {
        assert(s[m] != '\n');
    }
}

/// The views of a list of strings.
pub open spec fn views(v: Seq<String>) -> Seq<Seq<char>> {
    v.map_values(|l: String| l@)
}

/// `str::lines`, collected: the lines of `s` in order.
pub fn split_lines(s: &str) -> (lines: Vec<String>)
    ensures
        views(lines@) == lines_of(s@),
{
    let v = chars_of(s);
    let n = v.len();
    let mut out: Vec<String> = Vec::new();
    let mut start: usize = 0;
    let mut i: usize = 0;
    assert(v@.skip(0) =~= s@);
    assert(views(out@) + lines_of(s@) =~= lines_of(s@));
    while i < n
        invariant
            v@ == s@,
            n == v@.len(),
            start <= i <= n,
            forall|j: int| start <= j < i ==> v@[j] != '\n',
            lines_of(s@) == views(out@) + lines_of(v@.skip(start as int)),
        decreases n - i,
    {
        if v[i] == '\n' {
            let ghost rest = v@.skip(start as int);
            let ghost k = i - start;
            proof {
                assert(first_newline(rest, k));
                let c = choose|c: int| first_newline(rest, c);
                lemma_first_newline_unique(rest, k, c);
                assert(rest.take(k) =~= v@.subrange(start as int, i as int));
                assert(rest.skip(k + 1) =~= v@.skip(i + 1));
            }
            let mut line = collect(&v, start, i);
            if i > start && v[i - 1] == '\r' {
                line = collect(&v, start, i - 1);
                assert(line@ =~= strip_cr(v@.subrange(start as int, i as int)));
            }
            let ghost before = out@;
            out.push(line);
            proof {
                assert(views(out@) =~= views(before) + seq![strip_cr(rest.take(k))]);
            }
            start = i + 1;
        }
        i = i + 1;
    }
    proof {
        let rest = v@.skip(start as int);
        if rest.len() > 0 {
            assert(!exists|k: int| first_newline(rest, k));
        }
    }
    if start < n {
        let ghost before = out@;
        let last = collect(&v, start, n);
        out.push(last);
        assert(views(out@) =~= views(before) + seq![v@.skip(start as int)]);
        assert(lines_of(v@.skip(start as int)) == seq![v@.skip(start as int)]);
    } else {
        assert(v@.skip(start as int) =~= Seq::<char>::empty());
        assert(views(out@) + lines_of(v@.skip(start as int)) =~= views(out@));
    }
    out
}

// ---- errors and the clock -------------------------------------------------------

/// The text of a displayable value, such as an error (`to_string`).
pub fn e<E: core::fmt::Display>(x: E) -> (s: String)
    ensures
        vstd::string::to_string_from_display_ensures::<E>(&x, s),
{
    x.to_string()
}

#[verifier::external_type_specification]
#[verifier::external_body]
pub struct ExSystemTime(std::time::SystemTime);

/// `SystemTime::now`: a reading of the machine's clock.  Nothing is stated of
/// it: it is the time.
#[verifier::external_body]
fn clock_now() -> std::time::SystemTime {
    std::time::SystemTime::now()
}

/// `SystemTime::duration_since(UNIX_EPOCH)`, with its error (a reading before
/// the epoch) given as `None`.  Nothing is stated of which it is: a
/// `SystemTime` is opaque here.
#[verifier::external_body]
fn since_epoch(t: &std::time::SystemTime) -> Option<core::time::Duration> {
    t.duration_since(std::time::UNIX_EPOCH).ok()
}

/// `Duration::as_millis`: whole milliseconds of `d`.  Nothing is stated of
/// the number: a `Duration` is opaque here.
#[verifier::external_body]
fn duration_millis(d: &core::time::Duration) -> u128 {
    d.as_millis()
}

/// The decimal text of a clock reading in milliseconds since the Unix epoch;
/// a reading before the epoch (`None`) counts as 0.
pub fn clock_text(ms: Option<u128>) -> (s: String)
    ensures
        ms matches Some(m) ==> s@ == decimal_text(m as nat),
        ms is None ==> s@ == decimal_text(0),
{
    match ms {
        Some(m) => decimal(m),
        None => decimal(0),
    }
}

/// The host clock, in milliseconds since the Unix epoch, as decimal text
/// (`"0"` for a clock set before the epoch).
pub fn now() -> (s: String)
    ensures
        exists|ms: nat| s@ == decimal_text(ms),
{
    let t = clock_now();
    let ms = match since_epoch(&t) {
        Some(d) => Some(duration_millis(&d)),
        None => None,
    };
    clock_text(ms)
}

// ---- numbers -----------------------------------------------------------------

/// Decimal digits of `n`, most significant first, without leading zeros.
pub open spec fn decimal_text(n: nat) -> Seq<char>
    decreases n,
{
    if n < 10 {
        seq![(n + 48) as char]
    } else {
        decimal_text(n / 10).push((n % 10 + 48) as char)
    }
}

/// Appends the decimal digits of `n` to `s`.
pub fn push_decimal(s: &mut String, n: u128)
    ensures
        final(s)@ == old(s)@ + decimal_text(n as nat),
    decreases n,
{
    if n >= 10 {
        push_decimal(s, n / 10);
    }
    let d = (n % 10) as u8;
    push_char(s, (d + 48) as char);
    assert(final(s)@ =~= old(s)@ + decimal_text(n as nat));
}

/// `n` in decimal, as `format!("{}", n)` writes it.
pub fn decimal(n: u128) -> (s: String)
    ensures
        s@ == decimal_text(n as nat),
{
    let mut s = String::new();
    push_decimal(&mut s, n);
    assert(s@ =~= decimal_text(n as nat));
    s
}

} // verus!
