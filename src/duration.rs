//! Parsing of countdown lengths written as `S`, `M:S` or `H:M:S`.
use vstd::prelude::*;

verus! {

/// Why a duration text was not accepted.
#[derive(Debug, Clone, Copy, PartialEq, Eq, Structural)]
pub enum ParseError {
    /// Wrong number of fields, a field without digits, or a character that
    /// is neither a decimal digit, the field separator, nor the one `'+'` that
    /// may lead a field.
    Malformed,
    /// Well formed, but the total number of seconds does not fit in a `u64`.
    Overflow,
}

/// The characters with the Unicode `White_Space` property, which is what
/// `char::is_whitespace` and `str::trim` go by.
pub open spec fn is_white_space(c: char) -> bool {
    let u = c as u32;
    (0x09 <= u && u <= 0x0d) || u == 0x20 || u == 0x85 || u == 0xa0 || u == 0x1680
        || (0x2000 <= u && u <= 0x200a) || u == 0x2028 || u == 0x2029 || u == 0x202f
        || u == 0x205f || u == 0x3000
}

pub open spec fn trim_start(s: Seq<char>) -> Seq<char>
    decreases s.len(),
{
    if s.len() > 0 && is_white_space(s[0]) {
        trim_start(s.drop_first())
    } else {
        s
    }
}

pub open spec fn trim_end(s: Seq<char>) -> Seq<char>
    decreases s.len(),
{
    if s.len() > 0 && is_white_space(s.last()) {
        trim_end(s.drop_last())
    } else {
        s
    }
}

/// The text with leading and trailing white space removed.
pub open spec fn trimmed(s: Seq<char>) -> Seq<char> {
    trim_end(trim_start(s))
}

/// The fields of `s` separated by `':'`, read from left to right; an empty
/// text has one empty field.
pub open spec fn fields_of(s: Seq<char>) -> Seq<Seq<char>>
    decreases s.len(),
{
    if s.len() == 0 {
        seq![Seq::<char>::empty()]
    } else {
        let rest = fields_of(s.drop_last());
        if s.last() == ':' {
            rest.push(Seq::<char>::empty())
        } else {
            rest.update(rest.len() - 1, rest.last().push(s.last()))
        }
    }
}

pub open spec fn is_digit(c: char) -> bool {
    '0' <= c && c <= '9'
}

pub open spec fn digit_value(c: char) -> nat {
    (c as u32 - '0' as u32) as nat
}

/// A non-empty run of decimal digits.
pub open spec fn is_digit_run(d: Seq<char>) -> bool {
    d.len() > 0 && forall|j: int| 0 <= j < d.len() ==> is_digit(#[trigger] d[j])
}

/// A field without the one `'+'` sign that may lead it.
pub open spec fn digits_of(f: Seq<char>) -> Seq<char> {
    if f.len() > 0 && f[0] == '+' {
        f.drop_first()
    } else {
        f
    }
}

/// A non-negative integer in decimal: an optional `'+'`, then at least one
/// digit.
pub open spec fn is_numeral(f: Seq<char>) -> bool {
    is_digit_run(digits_of(f))
}

/// The number that a run of decimal digits denotes.
pub open spec fn numeral_value(d: Seq<char>) -> nat
    decreases d.len(),
{
    if d.len() == 0 {
        0
    } else {
        numeral_value(d.drop_last()) * 10 + digit_value(d.last())
    }
}

/// The number that a field denotes.
pub open spec fn field_value(f: Seq<char>) -> nat {
    numeral_value(digits_of(f))
}

/// One, two or three fields, each a numeral.
pub open spec fn well_formed(fs: Seq<Seq<char>>) -> bool {
    1 <= fs.len() <= 3 && forall|k: int| 0 <= k < fs.len() ==> is_numeral(#[trigger] fs[k])
}

/// `S`, `M:S` or `H:M:S` as a number of seconds.
pub open spec fn total_seconds(fs: Seq<Seq<char>>) -> nat {
    if fs.len() == 1 {
        field_value(fs[0])
    } else if fs.len() == 2 {
        field_value(fs[0]) * 60 + field_value(fs[1])
    } else {
        field_value(fs[0]) * 3600 + field_value(fs[1]) * 60 + field_value(fs[2])
    }
}

/// What `parse_duration` returns for a text.
pub open spec fn parse_spec(text: Seq<char>) -> Result<u64, ParseError> {
    let fs = fields_of(trimmed(text));
    if !well_formed(fs) {
        Err(ParseError::Malformed)
    } else if total_seconds(fs) > u64::MAX {
        Err(ParseError::Overflow)
    } else {
        Ok(total_seconds(fs) as u64)
    }
}

pub fn is_white_space_char(c: char) -> (r: bool)
    ensures
        r == is_white_space(c),
{
    let u = c as u32;
    (0x09 <= u && u <= 0x0d) || u == 0x20 || u == 0x85 || u == 0xa0 || u == 0x1680
        || (0x2000 <= u && u <= 0x200a) || u == 0x2028 || u == 0x2029 || u == 0x202f
        || u == 0x205f || u == 0x3000
}

/// The fields folded from the left as `((f0 * 60) + f1) * 60 + f2`.
pub open spec fn fold_fields(fs: Seq<Seq<char>>) -> nat
    decreases fs.len(),
{
    if fs.len() == 0 {
        0
    } else {
        fold_fields(fs.drop_last()) * 60 + field_value(fs.last())
    }
}

/// One more than the largest `u64`: values are tracked up to this bound.
pub open spec fn cap(x: int) -> int {
    if x < 0x1_0000_0000_0000_0000 {
        x
    } else {
        0x1_0000_0000_0000_0000
    }
}

proof fn lemma_cap_step(a: int, k: int, d: int)
    requires
        a >= 0,
        k >= 1,
        d >= 0,
    ensures
        cap(cap(a) * k + d) == cap(a * k + d),
{
    if a >= 0x1_0000_0000_0000_0000 {
        assert(a * k >= a) by (nonlinear_arith)
            requires
                a >= 0,
                k >= 1,
        ;
        assert(0x1_0000_0000_0000_0000 * k >= 0x1_0000_0000_0000_0000) by (nonlinear_arith)
            requires
                k >= 1,
        ;
    }
}

proof fn lemma_fold_is_total(fs: Seq<Seq<char>>)
    requires
        1 <= fs.len() <= 3,
    ensures
        fold_fields(fs) == total_seconds(fs),
{
    reveal_with_fuel(fold_fields, 4);
    let a = fs.drop_last();
    if fs.len() == 1 {
        assert(a.len() == 0);
    } else if fs.len() == 2 {
        assert(a.drop_last().len() == 0);
        assert(a.last() == fs[0]);
    } else {
        let b = a.drop_last();
        assert(b.drop_last().len() == 0);
        assert(b.last() == fs[0]);
        assert(a.last() == fs[1]);
        let x = field_value(fs[0]);
        let y = field_value(fs[1]);
        assert((x * 60 + y) * 60 == x * 3600 + y * 60) by (nonlinear_arith);
    }
}

proof fn lemma_trim_start_step(s: Seq<char>)
    requires
        s.len() > 0,
        is_white_space(s[0]),
    ensures
        trim_start(s) == trim_start(s.drop_first()),
{
}

/// Where the text stands once leading and trailing white space is removed,
/// in characters.
pub fn trim_bounds(text: &str) -> (r: (usize, usize))
    ensures
        r.0 <= r.1 <= text@.len(),
        trimmed(text@) == text@.subrange(r.0 as int, r.1 as int),
{
    let ghost s = text@;
    let n = text.unicode_len();
    let mut start: usize = 0;
    assert(s.subrange(0, n as int) =~= s);
    while start < n && is_white_space_char(text.get_char(start))
        invariant
            start <= n,
            n == s.len(),
            s == text@,
            trim_start(s) == trim_start(s.subrange(start as int, n as int)),
        decreases n - start,
    {
        proof {
            let u = s.subrange(start as int, n as int);
            lemma_trim_start_step(u);
            assert(u.drop_first() =~= s.subrange(start + 1, n as int));
        }
        start = start + 1;
    }
    proof {
        let u = s.subrange(start as int, n as int);
        if start == n {
            assert(u.len() == 0);
        }
    }
    let mut end: usize = n;
    while end > start && is_white_space_char(text.get_char(end - 1))
        invariant
            start <= end <= n,
            n == s.len(),
            s == text@,
            trimmed(s) == trim_end(s.subrange(start as int, end as int)),
        decreases end - start,
    {
        proof {
            let u = s.subrange(start as int, end as int);
            assert(u.drop_last() =~= s.subrange(start as int, end - 1));
        }
        end = end - 1;
    }
    proof {
        let t = s.subrange(start as int, end as int);
        if end == start {
            assert(t.len() == 0);
        }
    }
    (start, end)
}

/// The text without leading and trailing white space.
pub fn trim_text(text: &str) -> (r: String)
    ensures
        r@ == trimmed(text@),
{
    let (start, end) = trim_bounds(text);
    text.substring_char(start, end).to_owned()
}

/// Parses a countdown length: `S`, `M:S` or `H:M:S`, each field a run of
/// decimal digits, around which white space is ignored. The result is the
/// number of seconds, `H * 3600 + M * 60 + S`.
pub fn parse_duration(text: &str) -> (r: Result<u64, ParseError>)
    ensures
        r == parse_spec(text@),
{
    let ghost s = text@;
    let n = text.unicode_len();
    let (start, end) = trim_bounds(text);
    let ghost t = s.subrange(start as int, end as int);

    // Scan the trimmed text once, field by field.
    let mut i: usize = start;
    let mut nfields: usize = 1;
    let mut ok: bool = true;
    let mut cur_started: bool = false;
    let mut cur_has_digit: bool = false;
    let mut closed: u128 = 0;
    let mut cur: u128 = 0;
    proof {
        assert(s.subrange(start as int, start as int).len() == 0);
    }
    while i < end
        invariant
            start <= i <= end <= n,
            n == s.len(),
            s == text@,
            t == s.subrange(start as int, end as int),
            ({
                let p = fields_of(s.subrange(start as int, i as int));
                let d = digits_of(p.last());
                &&& p.len() >= 1
                &&& nfields as int == if p.len() < 4 { p.len() as int } else { 4 }
                &&& cur_started == (p.last().len() > 0)
                &&& cur_has_digit == (d.len() > 0)
                &&& ok == ((forall|k: int| 0 <= k < p.len() - 1 ==> is_numeral(#[trigger] p[k]))
                    && (forall|j: int| 0 <= j < d.len() ==> is_digit(#[trigger] d[j])))
                &&& ok ==> closed as int == cap(fold_fields(p.drop_last()) as int)
                &&& ok ==> cur as int == cap(numeral_value(d) as int)
            }),
        decreases end - i,
    {
        let c = text.get_char(i);
        let ghost q = s.subrange(start as int, i as int);
        let ghost longer = s.subrange(start as int, i + 1);
        let ghost p = fields_of(q);
        let ghost d = digits_of(p.last());
        proof {
            assert(longer.drop_last() =~= q);
            assert(longer.last() == c);
        }
        let ghost grown = fields_of(longer);
        if c == ':' {
            proof {
                assert(grown == p.push(Seq::<char>::empty()));
                assert(grown.drop_last() =~= p);
                assert(grown[grown.len() - 2] == p.last());
                if ok {
                    assert(p.len() >= 1);
                    lemma_cap_step(fold_fields(p.drop_last()) as int, 60, field_value(p.last()) as int);
                    if cur_has_digit {
                        assert forall|k: int| 0 <= k < grown.len() - 1 implies is_numeral(#[trigger] grown[k]) by {
                            assert(grown[k] == p[k]);
                        }
                    }
                }
                if !(ok && cur_has_digit) {
                    if !cur_has_digit {
                        assert(!is_numeral(grown[grown.len() - 2]));
                    } else {
                        if !(forall|j: int| 0 <= j < d.len() ==> is_digit(#[trigger] d[j])) {
                            assert(!is_numeral(grown[grown.len() - 2]));
                        } else {
                            let k = choose|k: int| 0 <= k < p.len() - 1 && !is_numeral(#[trigger] p[k]);
                            assert(grown[k] == p[k]);
                        }
                    }
                }
                assert(digits_of(grown.last()) =~= Seq::<char>::empty());
            }
            if ok {
                closed = if closed * 60 + cur < 0x1_0000_0000_0000_0000 {
                    closed * 60 + cur
                } else {
                    0x1_0000_0000_0000_0000
                };
            }
            ok = ok && cur_has_digit;
            cur = 0;
            cur_started = false;
            cur_has_digit = false;
            if nfields < 4 {
                nfields = nfields + 1;
            }
        } else if !cur_started && c == '+' {
            proof {
                let l = p.last().push(c);
                assert(grown == p.update(p.len() - 1, l));
                assert(grown.drop_last() =~= p.drop_last());
                assert(grown.last() == l);
                assert(digits_of(l) =~= Seq::<char>::empty());
                assert(d.len() == 0);
                assert forall|k: int| 0 <= k < grown.len() - 1 implies grown[k] == p[k] by {}
            }
            cur_started = true;
        } else {
            proof {
                let l = p.last().push(c);
                assert(grown == p.update(p.len() - 1, l));
                assert(grown.drop_last() =~= p.drop_last());
                assert(grown.last() == l);
                let dl = digits_of(l);
                assert(dl =~= d.push(c));
                assert(dl.drop_last() =~= d);
                assert forall|k: int| 0 <= k < grown.len() - 1 implies grown[k] == p[k] by {}
                if ok && is_digit(c) {
                    lemma_cap_step(numeral_value(d) as int, 10, digit_value(c) as int);
                    assert forall|j: int| 0 <= j < dl.len() implies is_digit(#[trigger] dl[j]) by {
                        if j < dl.len() - 1 {
                            assert(dl[j] == d[j]);
                        }
                    }
                }
                if ok && !is_digit(c) {
                    assert(!is_digit(dl[dl.len() - 1]));
                }
                if !ok {
                    if !(forall|j: int| 0 <= j < d.len() ==> is_digit(#[trigger] d[j])) {
                        let j = choose|j: int| 0 <= j < d.len() && !is_digit(#[trigger] d[j]);
                        assert(dl[j] == d[j]);
                    } else {
                        let k = choose|k: int| 0 <= k < p.len() - 1 && !is_numeral(#[trigger] p[k]);
                        assert(grown[k] == p[k]);
                    }
                }
            }
            if ok && '0' <= c && c <= '9' {
                let dv = (c as u32 - '0' as u32) as u128;
                cur = if cur * 10 + dv < 0x1_0000_0000_0000_0000 {
                    cur * 10 + dv
                } else {
                    0x1_0000_0000_0000_0000
                };
            } else {
                ok = false;
            }
            cur_started = true;
            cur_has_digit = true;
        }
        i = i + 1;
    }
    proof {
        assert(s.subrange(start as int, end as int) == t);
    }
    let ghost p = fields_of(t);
    let ghost d = digits_of(p.last());
    if !(ok && cur_has_digit && nfields <= 3) {
        proof {
            if nfields <= 3 {
                if !cur_has_digit {
                    assert(!is_numeral(p.last()));
                } else if !(forall|j: int| 0 <= j < d.len() ==> is_digit(#[trigger] d[j])) {
                    assert(!is_numeral(p.last()));
                } else {
                    let k = choose|k: int| 0 <= k < p.len() - 1 && !is_numeral(#[trigger] p[k]);
                }
            }
        }
        return Err(ParseError::Malformed);
    }
    proof {
        assert(is_numeral(p.last()));
        assert forall|k: int| 0 <= k < p.len() implies is_numeral(#[trigger] p[k]) by {
            if k < p.len() - 1 {
            } else {
                assert(p[k] == p.last());
            }
        }
        assert(well_formed(p));
        lemma_cap_step(fold_fields(p.drop_last()) as int, 60, field_value(p.last()) as int);
        lemma_fold_is_total(p);
    }
    let total = closed * 60 + cur;
    if total >= 0x1_0000_0000_0000_0000 {
        Err(ParseError::Overflow)
    } else {
        Ok(total as u64)
    }
}

/// What a well-formed text of `x` seconds parses to.
pub open spec fn seconds_result(x: nat) -> Result<u64, ParseError> {
    if x > u64::MAX {
        Err(ParseError::Overflow)
    } else {
        Ok(x as u64)
    }
}

proof fn lemma_fields_nonempty(a: Seq<char>)
    ensures
        fields_of(a).len() >= 1,
    decreases a.len(),
{
    if a.len() > 0 {
        lemma_fields_nonempty(a.drop_last());
    }
}

proof fn lemma_fields_no_colon(a: Seq<char>)
    requires
        forall|j: int| 0 <= j < a.len() ==> #[trigger] a[j] != ':',
    ensures
        fields_of(a) == seq![a],
    decreases a.len(),
{
    if a.len() > 0 {
        let rest = a.drop_last();
        assert forall|j: int| 0 <= j < rest.len() implies #[trigger] rest[j] != ':' by {
            assert(rest[j] == a[j]);
        }
        lemma_fields_no_colon(rest);
        assert(a[a.len() - 1] != ':');
        assert(rest.push(a.last()) =~= a);
        assert(fields_of(a) =~= seq![a]);
    } else {
        assert(a =~= Seq::<char>::empty());
    }
}

proof fn lemma_fields_join(a: Seq<char>, b: Seq<char>)
    ensures
        fields_of(a + seq![':'] + b) == fields_of(a) + fields_of(b),
    decreases b.len(),
{
    let ab = a + seq![':'] + b;
    if b.len() == 0 {
        assert(ab.drop_last() =~= a);
        assert(fields_of(ab) =~= fields_of(a) + fields_of(b));
    } else {
        lemma_fields_join(a, b.drop_last());
        lemma_fields_nonempty(b.drop_last());
        lemma_fields_nonempty(a);
        assert(ab.drop_last() =~= a + seq![':'] + b.drop_last());
        assert(ab.last() == b.last());
        assert(fields_of(ab) =~= fields_of(a) + fields_of(b));
    }
}

proof fn lemma_numeral_plain(x: Seq<char>)
    requires
        is_numeral(x),
    ensures
        forall|j: int| 0 <= j < x.len() ==> #[trigger] x[j] != ':',
        fields_of(x) == seq![x],
        x.len() > 0,
        !is_white_space(x[0]),
        !is_white_space(x.last()),
{
    let d = digits_of(x);
    let off: int = if x.len() > 0 && x[0] == '+' { 1 } else { 0 };
    assert forall|j: int| 0 <= j < x.len() implies #[trigger] x[j] != ':' by {
        if j >= off {
            assert(x[j] == d[j - off]);
            assert(is_digit(d[j - off]));
        }
    }
    assert(x.last() == d[d.len() - 1]);
    assert(is_digit(d[d.len() - 1]));
    if off == 0 {
        assert(is_digit(d[0]));
    }
    lemma_fields_no_colon(x);
}

proof fn lemma_trimmed_unchanged(x: Seq<char>)
    requires
        x.len() > 0,
        !is_white_space(x[0]),
        !is_white_space(x.last()),
    ensures
        trimmed(x) == x,
{
}

/// The three accepted shapes: `S` is `S` seconds, `M:S` is `M * 60 + S` and
/// `H:M:S` is `H * 3600 + M * 60 + S`, each field a non-negative integer in
/// decimal with an optional leading `'+'`; refused as an overflow only when
/// the total does not fit in a `u64`.
pub proof fn law_parse_shapes(h: Seq<char>, m: Seq<char>, s: Seq<char>)
    requires
        is_numeral(h),
        is_numeral(m),
        is_numeral(s),
    ensures
        parse_spec(s) == seconds_result(field_value(s)),
        parse_spec(m + seq![':'] + s) == seconds_result(field_value(m) * 60 + field_value(s)),
        parse_spec(h + seq![':'] + m + seq![':'] + s) == seconds_result(
            field_value(h) * 3600 + field_value(m) * 60 + field_value(s),
        ),
{
    lemma_numeral_plain(h);
    lemma_numeral_plain(m);
    lemma_numeral_plain(s);
    lemma_trimmed_unchanged(s);
    let ms = m + seq![':'] + s;
    assert(ms[0] == m[0] && ms.last() == s.last());
    lemma_trimmed_unchanged(ms);
    lemma_fields_join(m, s);
    let f2 = fields_of(ms);
    assert(f2 =~= seq![m, s]);
    assert(well_formed(f2));
    let hms = h + seq![':'] + ms;
    assert(h + seq![':'] + m + seq![':'] + s =~= hms);
    assert(hms[0] == h[0] && hms.last() == s.last());
    lemma_trimmed_unchanged(hms);
    lemma_fields_join(h, ms);
    let f3 = fields_of(hms);
    assert(f3 =~= seq![h, m, s]);
    assert(well_formed(f3));
    assert(well_formed(seq![s]));
}

} // verus!
