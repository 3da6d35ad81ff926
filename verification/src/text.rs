//! Text handling: trimming white space, dotted-decimal IPv4 addresses, and
//! decimal numbers.
use vstd::prelude::*;

verus! {

/// Whether `c` is white space in the sense of Unicode's `White_Space`
/// property, which is what `char::is_whitespace` tests.
pub open spec fn is_whitespace(c: char) -> bool {
    let u = c as u32;
    ||| 0x09 <= u <= 0x0D
    ||| u == 0x20
    ||| u == 0x85
    ||| u == 0xA0
    ||| u == 0x1680
    ||| 0x2000 <= u <= 0x200A
    ||| u == 0x2028
    ||| u == 0x2029
    ||| u == 0x202F
    ||| u == 0x205F
    ||| u == 0x3000
}

/// `s` without its leading white space.
pub open spec fn trim_start(s: Seq<char>) -> Seq<char>
    decreases s.len(),
{
    if s.len() > 0 && is_whitespace(s[0]) {
        trim_start(s.drop_first())
    } else {
        s
    }
}

/// `s` without its trailing white space.
pub open spec fn trim_end(s: Seq<char>) -> Seq<char>
    decreases s.len(),
{
    if s.len() > 0 && is_whitespace(s.last()) {
        trim_end(s.drop_last())
    } else {
        s
    }
}

/// `s` without leading and trailing white space.
pub open spec fn trim(s: Seq<char>) -> Seq<char> {
    trim_end(trim_start(s))
}

/// `s` with every line feed removed.
pub open spec fn drop_newlines(s: Seq<char>) -> Seq<char>
    decreases s.len(),
{
    if s.len() == 0 {
        s
    } else if s.last() == '\n' {
        drop_newlines(s.drop_last())
    } else {
        drop_newlines(s.drop_last()).push(s.last())
    }
}

/// Tests a character for white space.
pub fn char_is_whitespace(c: char) -> (w: bool)
    ensures
        w == is_whitespace(c),
{
    let u = c as u32;
    (0x09 <= u && u <= 0x0D) || u == 0x20 || u == 0x85 || u == 0xA0 || u == 0x1680 || (0x2000 <= u
        && u <= 0x200A) || u == 0x2028 || u == 0x2029 || u == 0x202F || u == 0x205F || u == 0x3000
}

proof fn lemma_trim_start(s: Seq<char>, lo: int)
    requires
        0 <= lo <= s.len(),
        forall|k: int| 0 <= k < lo ==> is_whitespace(#[trigger] s[k]),
        lo == s.len() || !is_whitespace(s[lo]),
    ensures
        trim_start(s) == s.subrange(lo, s.len() as int),
    decreases lo,
{
    if lo == 0 {
        assert(s.subrange(0, s.len() as int) =~= s);
    } else {
        let t = s.drop_first();
        assert forall|k: int| 0 <= k < lo - 1 implies is_whitespace(#[trigger] t[k]) by {
            assert(t[k] == s[k + 1]);
        }
        lemma_trim_start(t, lo - 1);
        assert(t.subrange(lo - 1, t.len() as int) =~= s.subrange(lo, s.len() as int));
    }
}

proof fn lemma_trim_end(s: Seq<char>, hi: int)
    requires
        0 <= hi <= s.len(),
        forall|k: int| hi <= k < s.len() ==> is_whitespace(#[trigger] s[k]),
        hi == 0 || !is_whitespace(s[hi - 1]),
    ensures
        trim_end(s) == s.subrange(0, hi),
    decreases s.len() - hi,
{
    if hi == s.len() {
        assert(s.subrange(0, hi) =~= s);
    } else {
        let t = s.drop_last();
        assert forall|k: int| hi <= k < t.len() implies is_whitespace(#[trigger] t[k]) by {
            assert(t[k] == s[k]);
        }
        lemma_trim_end(t, hi);
        assert(t.subrange(0, hi) =~= s.subrange(0, hi));
    }
}

/// The characters of `s`.
pub fn chars_of(s: &str) -> (chars: Vec<char>)
    ensures
        chars@ == s@,
{
    broadcast use vstd::string::axiom_spec_iter;

    let mut chars: Vec<char> = Vec::new();
    for c in it: s.chars()
        invariant
            it.seq() == s@,
            chars@ == it.seq().take(it.index() as int),
    {
        chars.push(c);
    }
    assert(chars@ =~= s@);
    chars
}

/// `text` without leading and trailing white space and without line feeds.
pub fn clean_reply(text: &[char]) -> (cleaned: Vec<char>)
    ensures
        cleaned@ == drop_newlines(trim(text@)),
        cleaned@ == trim(text@).filter(|c: char| c != '\n'),
{
    proof {
        lemma_drop_newlines_filters(trim(text@));
    }
    let n = text.len();
    let mut lo: usize = 0;
    while lo < n && char_is_whitespace(text[lo])
        invariant
            n == text@.len(),
            lo <= n,
            forall|k: int| 0 <= k < lo ==> is_whitespace(#[trigger] text@[k]),
        decreases n - lo,
    {
        lo = lo + 1;
    }
    proof {
        lemma_trim_start(text@, lo as int);
    }
    let mut hi: usize = n;
    while hi > lo && char_is_whitespace(text[hi - 1])
        invariant
            n == text@.len(),
            lo <= hi <= n,
            forall|k: int| hi <= k < n ==> is_whitespace(#[trigger] text@[k]),
        decreases hi,
    {
        hi = hi - 1;
    }
    let ghost started = text@.subrange(lo as int, n as int);
    proof {
        assert forall|k: int| hi - lo <= k < started.len() implies is_whitespace(
            #[trigger] started[k],
        ) by {
            assert(started[k] == text@[lo + k]);
        }
        if hi > lo {
            assert(started[hi - lo - 1] == text@[hi - 1]);
        }
        lemma_trim_end(started, hi - lo);
        assert(trim(text@) == started.subrange(0, hi - lo));
        assert(started.subrange(0, hi - lo) =~= text@.subrange(lo as int, hi as int));
    }
    let ghost trimmed = text@.subrange(lo as int, hi as int);
    let mut cleaned: Vec<char> = Vec::new();
    let mut i: usize = lo;
    while i < hi
        invariant
            lo <= i <= hi <= n,
            n == text@.len(),
            trimmed == text@.subrange(lo as int, hi as int),
            cleaned@ == drop_newlines(text@.subrange(lo as int, i as int)),
        decreases hi - i,
    {
        let c = text[i];
        let ghost before = text@.subrange(lo as int, i as int);
        let ghost after = text@.subrange(lo as int, i + 1);
        assert(after.drop_last() =~= before);
        assert(after.last() == c);
        if c != '\n' {
            cleaned.push(c);
        }
        i = i + 1;
    }
    cleaned
}


/// The fields of `s` between full stops (one more than the number of stops).
pub open spec fn dot_fields(s: Seq<char>) -> Seq<Seq<char>>
    decreases s.len(),
{
    if s.len() == 0 {
        seq![Seq::empty()]
    } else {
        let f = dot_fields(s.drop_last());
        if s.last() == '.' {
            f.push(Seq::empty())
        } else {
            f.update(f.len() - 1, f.last().push(s.last()))
        }
    }
}

/// Whether `c` is an ASCII decimal digit.
pub open spec fn is_digit(c: char) -> bool {
    '0' <= c <= '9'
}

/// The value of the decimal digits `f`.
pub open spec fn digits_value(f: Seq<char>) -> nat
    decreases f.len(),
{
    if f.len() == 0 {
        0
    } else {
        digits_value(f.drop_last()) * 10 + (f.last() as nat - '0' as nat) as nat
    }
}

/// The octet that the field `f` of a dotted-decimal address denotes: one to
/// three decimal digits, no leading zero unless the field is `0`, at most 255.
pub open spec fn octet(f: Seq<char>) -> Option<u8> {
    if 1 <= f.len() <= 3 && (forall|i: int| 0 <= i < f.len() ==> is_digit(#[trigger] f[i])) && !(
    f.len() > 1 && f[0] == '0') && digits_value(f) <= 255 {
        Some(digits_value(f) as u8)
    } else {
        None
    }
}

/// The IPv4 address that `s` writes in dotted-decimal notation: four octets
/// separated by full stops and nothing else. This is the notation that the
/// standard library's `Ipv4Addr` parses.
pub open spec fn parse_ipv4(s: Seq<char>) -> Option<Seq<u8>> {
    let f = dot_fields(s);
    if f.len() == 4 && octet(f[0]) is Some && octet(f[1]) is Some && octet(f[2]) is Some && octet(
        f[3],
    ) is Some {
        Some(seq![octet(f[0])->0, octet(f[1])->0, octet(f[2])->0, octet(f[3])->0])
    } else {
        None
    }
}

proof fn lemma_dot_fields_nonempty(s: Seq<char>)
    ensures
        dot_fields(s).len() >= 1,
    decreases s.len(),
{
    if s.len() > 0 {
        lemma_dot_fields_nonempty(s.drop_last());
    }
}

/// The octet that one field denotes (see `octet`).
fn parse_octet(f: &Vec<char>) -> (v: Option<u8>)
    ensures
        v == octet(f@),
{
    let n = f.len();
    if n < 1 || n > 3 {
        return None;
    }
    if n > 1 && f[0] == '0' {
        return None;
    }
    let mut value: u32 = 0;
    let mut i: usize = 0;
    while i < n
        invariant
            n == f@.len(),
            1 <= n <= 3,
            i <= n,
            forall|k: int| 0 <= k < i ==> is_digit(#[trigger] f@[k]),
            value == digits_value(f@.subrange(0, i as int)),
            value < 1000,
            i == 0 ==> value == 0,
            i == 1 ==> value < 10,
            i == 2 ==> value < 100,
        decreases n - i,
    {
        let c = f[i];
        if !('0' <= c && c <= '9') {
            assert(!is_digit(f@[i as int]));
            return None;
        }
        let ghost before = f@.subrange(0, i as int);
        let ghost after = f@.subrange(0, i + 1);
        assert(after.drop_last() =~= before);
        let d = (c as u32) - ('0' as u32);
        value = value * 10 + d;
        i = i + 1;
    }
    assert(f@.subrange(0, n as int) =~= f@);
    if value > 255 {
        return None;
    }
    Some(value as u8)
}

/// Parses the dotted-decimal IPv4 address `s` (see `parse_ipv4`).
pub fn parse_ipv4_chars(s: &[char]) -> (address: Option<[u8; 4]>)
    ensures
        match address {
            Some(a) => parse_ipv4(s@) == Some(a@),
            None => parse_ipv4(s@) is None,
        },
        is_dotted_text(s@, address),
{
    let address = parse_ipv4_chars_inner(s);
    proof {
        lemma_parse_ipv4_is_dotted_text(s@);
    }
    address
}

/// Whether `address` is what the text `s` says in dotted-decimal notation:
/// `Some(a)` exactly when `s` is the dotted-decimal text of `a`.
pub open spec fn is_dotted_text(s: Seq<char>, address: Option<[u8; 4]>) -> bool {
    match address {
        Some(a) => s == dotted(a@),
        None => forall|a: Seq<u8>| a.len() == 4 ==> s != #[trigger] dotted(a),
    }
}

/// `parse_ipv4` accepts exactly the dotted-decimal texts of addresses.
pub proof fn lemma_parse_ipv4_is_dotted_text(s: Seq<char>)
    ensures
        match parse_ipv4(s) {
            Some(a) => a.len() == 4 && s == dotted(a),
            None => forall|a: Seq<u8>| a.len() == 4 ==> s != #[trigger] dotted(a),
        },
{
    lemma_parsed_is_dotted(s);
    if parse_ipv4(s) is None {
        assert forall|a: Seq<u8>| a.len() == 4 implies s != #[trigger] dotted(a) by {
            if s == dotted(a) {
                lemma_dotted_parses(a);
            }
        }
    }
}

fn parse_ipv4_chars_inner(s: &[char]) -> (address: Option<[u8; 4]>)
    ensures
        match address {
            Some(a) => parse_ipv4(s@) == Some(a@),
            None => parse_ipv4(s@) is None,
        },
{
    let n = s.len();
    let mut done: Vec<Vec<char>> = Vec::new();
    let mut current: Vec<char> = Vec::new();
    let mut i: usize = 0;
    while i < n
        invariant
            n == s@.len(),
            i <= n,
            done@.map_values(|f: Vec<char>| f@).push(current@) == dot_fields(s@.subrange(0, i as int)),
        decreases n - i,
    {
        let c = s[i];
        let ghost before = s@.subrange(0, i as int);
        let ghost after = s@.subrange(0, i + 1);
        assert(after.drop_last() =~= before);
        proof {
            lemma_dot_fields_nonempty(before);
        }
        let ghost old_done = done@.map_values(|f: Vec<char>| f@);
        if c == '.' {
            let finished = current;
            current = Vec::new();
            done.push(finished);
            assert(done@.map_values(|f: Vec<char>| f@) =~= old_done.push(finished@));
            assert(done@.map_values(|f: Vec<char>| f@).push(current@) =~= dot_fields(after));
        } else {
            current.push(c);
            assert(done@.map_values(|f: Vec<char>| f@).push(current@) =~= dot_fields(after));
        }
        i = i + 1;
    }
    assert(s@.subrange(0, n as int) =~= s@);
    let ghost fields = dot_fields(s@);
    if done.len() != 3 {
        assert(fields.len() == done@.len() + 1);
        return None;
    }
    assert(fields[0] == done@[0]@);
    assert(fields[1] == done@[1]@);
    assert(fields[2] == done@[2]@);
    assert(fields[3] == current@);
    let a = match parse_octet(&done[0]) {
        Some(v) => v,
        None => return None,
    };
    let b = match parse_octet(&done[1]) {
        Some(v) => v,
        None => return None,
    };
    let c = match parse_octet(&done[2]) {
        Some(v) => v,
        None => return None,
    };
    let d = match parse_octet(&current) {
        Some(v) => v,
        None => return None,
    };
    let address = [a, b, c, d];
    assert(address@ =~= seq![a, b, c, d]);
    Some(address)
}


/// The character of the decimal digit `d`.
pub open spec fn digit_char(d: nat) -> char {
    ('0' as nat + d) as char
}

/// The decimal notation of `n`, without leading zeros.
pub open spec fn decimal(n: nat) -> Seq<char>
    decreases n,
{
    if n < 10 {
        seq![digit_char(n)]
    } else {
        decimal(n / 10).push(digit_char(n % 10))
    }
}

/// The decimal text of `n` is digits only, has no leading zero, and reads
/// back as `n`.
pub proof fn lemma_decimal_reads_back(n: nat)
    ensures
        decimal(n).len() >= 1,
        forall|i: int| 0 <= i < decimal(n).len() ==> is_digit(#[trigger] decimal(n)[i]),
        decimal(n).len() > 1 ==> decimal(n)[0] != '0',
        digits_value(decimal(n)) == n,
        n < 1000 ==> decimal(n).len() <= 3,
        n < 100 ==> decimal(n).len() <= 2,
    decreases n,
{
    let d = decimal(n);
    if n < 10 {
        assert(d == seq![digit_char(n)]);
        assert(d.drop_last() =~= Seq::<char>::empty());
        assert(digit_char(n) as nat == '0' as nat + n);
        assert(digits_value(d) == digits_value(d.drop_last()) * 10 + (d.last() as nat - '0' as nat) as nat);
    } else {
        lemma_decimal_reads_back(n / 10);
        let q = decimal(n / 10);
        assert(d == q.push(digit_char(n % 10)));
        assert(d.drop_last() =~= q);
        assert(digit_char(n % 10) as nat == '0' as nat + n % 10);
        assert(d.last() == digit_char(n % 10));
        assert(digits_value(d) == digits_value(q) * 10 + (d.last() as nat - '0' as nat) as nat);
        assert(n == (n / 10) * 10 + n % 10);
        assert forall|i: int| 0 <= i < d.len() implies is_digit(#[trigger] d[i]) by {
            if i < q.len() {
                assert(d[i] == q[i]);
            }
        }
        assert(d[0] == q[0]);
        if q.len() == 1 {
            assert(n / 10 < 10) by {
                if n / 10 >= 10 {
                    lemma_decimal_reads_back(n / 100);
                    assert(decimal(n / 10).len() == decimal(n / 10 / 10).len() + 1);
                }
            }
            assert(q == seq![digit_char(n / 10)]);
            assert(digit_char(n / 10) as nat == '0' as nat + n / 10);
        }
    }
}

/// The one-character text of the digit `d`.
fn digit_str(d: u32) -> (s: &'static str)
    requires
        d < 10,
    ensures
        s@ == seq![digit_char(d as nat)],
{
    match d {
        0 => {
            proof {
                reveal_strlit("0");
            }
            "0"
        },
        1 => {
            proof {
                reveal_strlit("1");
            }
            "1"
        },
        2 => {
            proof {
                reveal_strlit("2");
            }
            "2"
        },
        3 => {
            proof {
                reveal_strlit("3");
            }
            "3"
        },
        4 => {
            proof {
                reveal_strlit("4");
            }
            "4"
        },
        5 => {
            proof {
                reveal_strlit("5");
            }
            "5"
        },
        6 => {
            proof {
                reveal_strlit("6");
            }
            "6"
        },
        7 => {
            proof {
                reveal_strlit("7");
            }
            "7"
        },
        8 => {
            proof {
                reveal_strlit("8");
            }
            "8"
        },
        _ => {
            proof {
                reveal_strlit("9");
            }
            "9"
        },
    }
}

/// Appends the decimal notation of `n` to `out`.
pub fn append_decimal(out: &mut String, n: u32)
    ensures
        final(out)@ == old(out)@ + decimal(n as nat),
    decreases n,
{
    if n >= 10 {
        append_decimal(out, n / 10);
    }
    out.append(digit_str(n % 10));
}


/// The dotted-decimal text of the address `a`: its four octets in decimal,
/// separated by full stops.
pub open spec fn dotted(a: Seq<u8>) -> Seq<char> {
    decimal(a[0] as nat) + seq!['.'] + decimal(a[1] as nat) + seq!['.'] + decimal(a[2] as nat) + seq!['.']
        + decimal(a[3] as nat)
}

/// Whether `s` holds no full stop.
pub open spec fn no_dot(s: Seq<char>) -> bool {
    forall|i: int| 0 <= i < s.len() ==> #[trigger] s[i] != '.'
}

/// Fields joined with full stops between them.
pub open spec fn join_dots(fields: Seq<Seq<char>>) -> Seq<char>
    decreases fields.len(),
{
    if fields.len() <= 1 {
        if fields.len() == 1 {
            fields[0]
        } else {
            Seq::empty()
        }
    } else {
        join_dots(fields.drop_last()) + seq!['.'] + fields.last()
    }
}

/// Appending text without full stops extends the last field.
proof fn lemma_dot_fields_extend(p: Seq<char>, q: Seq<char>)
    requires
        no_dot(q),
    ensures
        dot_fields(p + q).len() == dot_fields(p).len(),
        dot_fields(p + q) == dot_fields(p).update(
            dot_fields(p).len() - 1,
            dot_fields(p).last() + q,
        ),
    decreases q.len(),
{
    lemma_dot_fields_nonempty(p);
    if q.len() == 0 {
        assert(p + q =~= p);
        assert(dot_fields(p).update(dot_fields(p).len() - 1, dot_fields(p).last() + q) =~= dot_fields(p));
    } else {
        let r = q.drop_last();
        assert forall|i: int| 0 <= i < r.len() implies #[trigger] r[i] != '.' by {
            assert(r[i] == q[i]);
        }
        lemma_dot_fields_extend(p, r);
        assert((p + q).drop_last() =~= p + r);
        assert((p + q).last() == q.last());
        assert(q.last() != '.');
        let f = dot_fields(p);
        assert(dot_fields(p + q) =~= f.update(f.len() - 1, f.last() + q)) by {
            assert((f.last() + r).push(q.last()) =~= f.last() + q);
        }
    }
}

/// Each field of `s` is free of full stops, and joining them gives back `s`.
proof fn lemma_join_dot_fields(s: Seq<char>)
    ensures
        join_dots(dot_fields(s)) == s,
        forall|i: int| 0 <= i < dot_fields(s).len() ==> no_dot(#[trigger] dot_fields(s)[i]),
    decreases s.len(),
{
    lemma_dot_fields_nonempty(s);
    if s.len() > 0 {
        let t = s.drop_last();
        let c = s.last();
        lemma_join_dot_fields(t);
        lemma_dot_fields_nonempty(t);
        let f = dot_fields(t);
        let g = dot_fields(s);
        assert(t.push(c) =~= s);
        if c == '.' {
            assert(g == f.push(Seq::empty()));
            assert(g.drop_last() =~= f);
            assert(join_dots(g) =~= s);
            assert forall|i: int| 0 <= i < g.len() implies no_dot(#[trigger] g[i]) by {
                if i < f.len() {
                    assert(g[i] == f[i]);
                }
            }
        } else {
            assert(g == f.update(f.len() - 1, f.last().push(c)));
            if f.len() == 1 {
                assert(join_dots(f) == f[0]);
                assert(join_dots(g) == g[0]);
                assert(join_dots(g) =~= s);
            } else {
                assert(g.drop_last() =~= f.drop_last());
                assert(join_dots(g) =~= s);
            }
            assert forall|i: int| 0 <= i < g.len() implies no_dot(#[trigger] g[i]) by {
                if i < f.len() - 1 {
                    assert(g[i] == f[i]);
                } else {
                    assert(no_dot(f[i]));
                    assert forall|k: int| 0 <= k < g[i].len() implies #[trigger] g[i][k] != '.' by {
                        if k < f[i].len() {
                            assert(g[i][k] == f[i][k]);
                        }
                    }
                }
            }
        }
    }
}

/// A field of digits that has a digit other than zero in front is worth at
/// least one.
proof fn lemma_leading_digit_positive(g: Seq<char>)
    requires
        g.len() >= 1,
        forall|i: int| 0 <= i < g.len() ==> is_digit(#[trigger] g[i]),
        g[0] != '0',
    ensures
        digits_value(g) >= 1,
    decreases g.len(),
{
    if g.len() > 1 {
        let h = g.drop_last();
        assert forall|i: int| 0 <= i < h.len() implies is_digit(#[trigger] h[i]) by {
            assert(h[i] == g[i]);
        }
        lemma_leading_digit_positive(h);
    }
}

/// Digits without a leading zero are the decimal text of their value.
proof fn lemma_canonical_digits(f: Seq<char>)
    requires
        f.len() >= 1,
        forall|i: int| 0 <= i < f.len() ==> is_digit(#[trigger] f[i]),
        f.len() > 1 ==> f[0] != '0',
    ensures
        f == decimal(digits_value(f)),
    decreases f.len(),
{
    let c = f.last();
    assert(is_digit(c));
    let d = (c as nat - '0' as nat) as nat;
    assert(d < 10);
    assert(digit_char(d) == c);
    if f.len() == 1 {
        assert(f.drop_last() =~= Seq::<char>::empty());
        assert(digits_value(Seq::<char>::empty()) == 0);
        assert(digits_value(f) == digits_value(f.drop_last()) * 10 + d);
        assert(digits_value(f) == d);
        assert(f =~= seq![digit_char(d)]);
    } else {
        let g = f.drop_last();
        assert forall|i: int| 0 <= i < g.len() implies is_digit(#[trigger] g[i]) by {
            assert(g[i] == f[i]);
        }
        assert(g[0] == f[0]);
        lemma_canonical_digits(g);
        lemma_leading_digit_positive(g);
        let n = digits_value(f);
        assert(n == digits_value(g) * 10 + d);
        assert(n / 10 == digits_value(g));
        assert(n % 10 == d);
        assert(decimal(n) == decimal(n / 10).push(digit_char(n % 10)));
        assert(f =~= g.push(c));
    }
}

/// The fields of four decimal texts joined with full stops are those texts.
proof fn lemma_dotted_fields(a: Seq<u8>)
    requires
        a.len() == 4,
    ensures
        dot_fields(dotted(a)) == seq![
            decimal(a[0] as nat),
            decimal(a[1] as nat),
            decimal(a[2] as nat),
            decimal(a[3] as nat),
        ],
{
    let d0 = decimal(a[0] as nat);
    let d1 = decimal(a[1] as nat);
    let d2 = decimal(a[2] as nat);
    let d3 = decimal(a[3] as nat);
    lemma_decimal_reads_back(a[0] as nat);
    lemma_decimal_reads_back(a[1] as nat);
    lemma_decimal_reads_back(a[2] as nat);
    lemma_decimal_reads_back(a[3] as nat);
    assert forall|x: Seq<char>| (forall|i: int| 0 <= i < x.len() ==> is_digit(#[trigger] x[i])) implies no_dot(x) by {
        assert forall|i: int| 0 <= i < x.len() implies #[trigger] x[i] != '.' by {
            assert(is_digit(x[i]));
        }
    }
    lemma_dot_fields_extend(Seq::empty(), d0);
    assert(Seq::<char>::empty() + d0 =~= d0);
    assert(dot_fields(d0) =~= seq![d0]);
    let p1 = d0.push('.');
    assert(dot_fields(p1) =~= seq![d0, Seq::empty()]) by {
        assert(p1.drop_last() =~= d0);
    }
    lemma_dot_fields_extend(p1, d1);
    assert(dot_fields(p1 + d1) =~= seq![d0, d1]);
    let p2 = (p1 + d1).push('.');
    assert(dot_fields(p2) =~= seq![d0, d1, Seq::empty()]) by {
        assert(p2.drop_last() =~= p1 + d1);
    }
    lemma_dot_fields_extend(p2, d2);
    assert(dot_fields(p2 + d2) =~= seq![d0, d1, d2]);
    let p3 = (p2 + d2).push('.');
    assert(dot_fields(p3) =~= seq![d0, d1, d2, Seq::empty()]) by {
        assert(p3.drop_last() =~= p2 + d2);
    }
    lemma_dot_fields_extend(p3, d3);
    assert(dot_fields(p3 + d3) =~= seq![d0, d1, d2, d3]);
    assert(p3 + d3 =~= dotted(a));
}

/// Every address reads back from its dotted-decimal text.
pub proof fn lemma_dotted_parses(a: Seq<u8>)
    requires
        a.len() == 4,
    ensures
        parse_ipv4(dotted(a)) == Some(a),
{
    lemma_dotted_fields(a);
    lemma_decimal_reads_back(a[0] as nat);
    lemma_decimal_reads_back(a[1] as nat);
    lemma_decimal_reads_back(a[2] as nat);
    lemma_decimal_reads_back(a[3] as nat);
    let f = dot_fields(dotted(a));
    assert(octet(f[0]) == Some(a[0]));
    assert(octet(f[1]) == Some(a[1]));
    assert(octet(f[2]) == Some(a[2]));
    assert(octet(f[3]) == Some(a[3]));
    assert(seq![a[0], a[1], a[2], a[3]] =~= a);
}

/// A text reads as an address only when it is exactly that address's
/// dotted-decimal text: no other spelling (leading zeros, signs, spaces,
/// missing or extra parts) is accepted.
pub proof fn lemma_parsed_is_dotted(s: Seq<char>)
    ensures
        parse_ipv4(s) matches Some(a) ==> a.len() == 4 && s == dotted(a),
{
    if let Some(a) = parse_ipv4(s) {
        let f = dot_fields(s);
        lemma_join_dot_fields(s);
        assert(f.len() == 4);
        assert(a =~= seq![octet(f[0])->0, octet(f[1])->0, octet(f[2])->0, octet(f[3])->0]);
        assert forall|k: int| 0 <= k < 4 implies #[trigger] f[k] == decimal(a[k] as nat) by {
            assert(octet(f[k]) is Some);
            lemma_canonical_digits(f[k]);
        }
        assert(f.drop_last().drop_last().drop_last() =~= seq![f[0]]);
        assert(join_dots(f) == join_dots(f.drop_last()) + seq!['.'] + f[3]);
        assert(join_dots(f.drop_last()) == join_dots(f.drop_last().drop_last()) + seq!['.'] + f[2]);
        assert(join_dots(f.drop_last().drop_last()) == join_dots(f.drop_last().drop_last().drop_last())
            + seq!['.'] + f[1]);
        assert(join_dots(seq![f[0]]) == f[0]);
        assert(s =~= dotted(a));
    }
}


/// Removing line feeds keeps every other character, in order, and leaves no
/// line feed.
pub proof fn lemma_drop_newlines_filters(s: Seq<char>)
    ensures
        drop_newlines(s) == s.filter(|c: char| c != '\n'),
        forall|i: int| 0 <= i < drop_newlines(s).len() ==> #[trigger] drop_newlines(s)[i] != '\n',
    decreases s.len(),
{
    reveal(Seq::filter);
    if s.len() > 0 {
        lemma_drop_newlines_filters(s.drop_last());
        let r = drop_newlines(s);
        let q = drop_newlines(s.drop_last());
        assert forall|i: int| 0 <= i < r.len() implies #[trigger] r[i] != '\n' by {
            if s.last() != '\n' && i == q.len() {
            } else {
                assert(r[i] == q[i]);
            }
        }
    }
}

proof fn lemma_trim_start_shape(s: Seq<char>) -> (lo: int)
    ensures
        0 <= lo <= s.len(),
        forall|k: int| 0 <= k < lo ==> is_whitespace(#[trigger] s[k]),
        lo == s.len() || !is_whitespace(s[lo]),
        trim_start(s) == s.subrange(lo, s.len() as int),
    decreases s.len(),
{
    if s.len() > 0 && is_whitespace(s[0]) {
        let t = s.drop_first();
        let l = lemma_trim_start_shape(t);
        assert forall|k: int| 0 <= k < l + 1 implies is_whitespace(#[trigger] s[k]) by {
            if k > 0 {
                assert(s[k] == t[k - 1]);
            }
        }
        assert(t.subrange(l, t.len() as int) =~= s.subrange(l + 1, s.len() as int));
        l + 1
    } else {
        assert(s.subrange(0, s.len() as int) =~= s);
        0
    }
}

proof fn lemma_trim_end_shape(s: Seq<char>) -> (hi: int)
    ensures
        0 <= hi <= s.len(),
        forall|k: int| hi <= k < s.len() ==> is_whitespace(#[trigger] s[k]),
        hi == 0 || !is_whitespace(s[hi - 1]),
        trim_end(s) == s.subrange(0, hi),
    decreases s.len(),
{
    if s.len() > 0 && is_whitespace(s.last()) {
        let t = s.drop_last();
        let h = lemma_trim_end_shape(t);
        assert forall|k: int| h <= k < s.len() implies is_whitespace(#[trigger] s[k]) by {
            if k < t.len() {
                assert(s[k] == t[k]);
            }
        }
        assert(t.subrange(0, h) =~= s.subrange(0, h));
        h
    } else {
        assert(s.subrange(0, s.len() as int) =~= s);
        s.len() as int
    }
}

/// Trimming removes exactly the white space at both ends: what is left is a
/// stretch of `s` that neither starts nor ends with white space, and
/// everything before and after it is white space.
pub proof fn lemma_trim_strips_white_space(s: Seq<char>)
    ensures
        exists|lo: int, hi: int|
            0 <= lo <= hi <= s.len() && #[trigger] s.subrange(lo, hi) == trim(s) && (forall|k: int|
                0 <= k < lo ==> is_whitespace(#[trigger] s[k])) && (forall|k: int|
                hi <= k < s.len() ==> is_whitespace(#[trigger] s[k])) && (lo < hi ==> !is_whitespace(s[lo])
                && !is_whitespace(s[hi - 1])),
{
    let lo = lemma_trim_start_shape(s);
    let t = s.subrange(lo, s.len() as int);
    let h = lemma_trim_end_shape(t);
    let hi = lo + h;
    assert(t.subrange(0, h) =~= s.subrange(lo, hi));
    assert forall|k: int| hi <= k < s.len() implies is_whitespace(#[trigger] s[k]) by {
        assert(s[k] == t[k - lo]);
    }
    if lo < hi {
        assert(t[0] == s[lo]);
        assert(t[h - 1] == s[hi - 1]);
    }
    assert(s.subrange(lo, hi) == trim(s));
}

} // verus!
