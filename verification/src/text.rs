//! Decimal text: readers for configuration values, and the
//! comma-joined order-id lists the ledger's rows are stored as.
//!
//! Settings are stored as text; these functions give that text an
//! exact meaning: a non-empty run of decimal digits, optionally signed
//! for the integer kinds, and the words `true` / `false` for booleans.
//! An order-id list is stored as the ids' decimal digits joined by
//! commas, the empty list as the empty string; rendering and reading
//! invert each other, which is proved below.

use vstd::prelude::*;

verus! {

/// A decimal digit.
pub open spec fn is_digit(c: char) -> bool {
    '0' <= c && c <= '9'
}

/// Every character is a decimal digit.
pub open spec fn all_digits(s: Seq<char>) -> bool {
    forall|i: int| 0 <= i < s.len() ==> is_digit(#[trigger] s[i])
}

/// The numeric value of one digit.
pub open spec fn digit_val(c: char) -> int {
    c as int - '0' as int
}

/// The value of a digit string read in base ten.
pub open spec fn dec_value(s: Seq<char>) -> int
    decreases s.len(),
{
    if s.len() == 0 {
        0
    } else {
        dec_value(s.drop_last()) * 10 + digit_val(s.last())
    }
}

/// A signed decimal string: digits, optionally preceded by a minus
/// sign.
pub open spec fn is_int_str(s: Seq<char>) -> bool {
    if s.len() > 0 && s[0] == '-' {
        s.len() > 1 && all_digits(s.skip(1))
    } else {
        s.len() > 0 && all_digits(s)
    }
}

/// The value of a signed decimal string.
pub open spec fn int_value(s: Seq<char>) -> int {
    if s.len() > 0 && s[0] == '-' {
        -dec_value(s.skip(1))
    } else {
        dec_value(s)
    }
}

/// Digit strings have non-negative values, monotone in their
/// prefixes.
proof fn lemma_dec_prefix(s: Seq<char>, j: int)
    requires
        all_digits(s),
        0 <= j <= s.len(),
    ensures
        0 <= dec_value(s.take(j)) <= dec_value(s),
    decreases s.len(),
{
    lemma_dec_nonneg(s.take(j));
    if j < s.len() {
        let sub = s.drop_last();
        assert(all_digits(sub));
        assert(s.take(j) =~= sub.take(j));
        lemma_dec_prefix(sub, j);
        lemma_dec_nonneg(sub);
        assert(dec_value(s) == dec_value(sub) * 10 + digit_val(s.last()));
        assert(dec_value(sub) <= dec_value(sub) * 10);
    } else {
        assert(s.take(j) =~= s);
    }
}

/// Digit strings have non-negative values.
proof fn lemma_dec_nonneg(s: Seq<char>)
    requires
        all_digits(s),
    ensures
        dec_value(s) >= 0,
    decreases s.len(),
{
    if s.len() > 0 {
        assert(all_digits(s.drop_last()));
        lemma_dec_nonneg(s.drop_last());
        assert(dec_value(s.drop_last()) <= dec_value(s.drop_last()) * 10);
    }
}

/// The character of one digit value.
pub open spec fn digit_char(d: int) -> char {
    if d == 0 {
        '0'
    } else if d == 1 {
        '1'
    } else if d == 2 {
        '2'
    } else if d == 3 {
        '3'
    } else if d == 4 {
        '4'
    } else if d == 5 {
        '5'
    } else if d == 6 {
        '6'
    } else if d == 7 {
        '7'
    } else if d == 8 {
        '8'
    } else {
        '9'
    }
}

/// The decimal digits of a non-negative value, most significant
/// first.
pub open spec fn dec_str(v: int) -> Seq<char>
    decreases v,
{
    if v < 10 {
        seq![digit_char(v)]
    } else {
        dec_str(v / 10).push(digit_char(v % 10))
    }
}

/// The decimal digits of a value read back as that value, without a
/// leading zero.
pub proof fn lemma_dec_str_props(v: int)
    requires
        0 <= v,
    ensures
        dec_str(v).len() >= 1,
        all_digits(dec_str(v)),
        dec_value(dec_str(v)) == v,
        v >= 1 ==> dec_str(v)[0] != '0',
        v < 10 ==> dec_str(v).len() == 1,
    decreases v,
{
    if v < 10 {
        assert(dec_str(v) =~= seq![digit_char(v)]);
        assert(dec_str(v).drop_last() =~= Seq::<char>::empty());
        assert(dec_value(dec_str(v).drop_last()) == 0);
        assert(dec_str(v).last() == digit_char(v));
        assert(dec_value(dec_str(v)) == 0 * 10 + digit_val(digit_char(v)));
    } else {
        lemma_dec_str_props(v / 10);
        let p = dec_str(v / 10);
        let s = p.push(digit_char(v % 10));
        assert(s.drop_last() =~= p);
        assert(s.last() == digit_char(v % 10));
        assert(digit_val(digit_char(v % 10)) == v % 10);
        assert(dec_value(s) == dec_value(p) * 10 + v % 10);
        assert(s[0] == p[0]);
        assert forall|i: int| 0 <= i < s.len() implies is_digit(#[trigger] s[i]) by {
            if i < p.len() {
                assert(is_digit(p[i]));
            }
        }
    }
}

/// A digit string without a leading zero is the decimal rendering of
/// its own value: decimal representations are unique.
pub proof fn lemma_dec_str_canonical(s: Seq<char>)
    requires
        s.len() >= 1,
        all_digits(s),
        s.len() > 1 ==> s[0] != '0',
    ensures
        s =~= dec_str(dec_value(s)),
    decreases s.len(),
{
    lemma_dec_nonneg(s);
    if s.len() == 1 {
        assert(s.drop_last() =~= Seq::<char>::empty());
        assert(dec_value(s.drop_last()) == 0);
        assert(s.last() == s[0]);
        assert(dec_value(s) == digit_val(s[0]));
        assert(is_digit(s[0]));
        assert(digit_char(digit_val(s[0])) == s[0]);
    } else {
        let p = s.drop_last();
        let d = digit_val(s.last());
        assert(all_digits(p));
        assert(p[0] == s[0]);
        assert(p[0] != '0');
        lemma_dec_str_canonical(p);
        lemma_dec_nonneg(p);
        assert(dec_value(p) >= 1) by {
            if p.len() == 1 {
                assert(p.drop_last() =~= Seq::<char>::empty());
                assert(dec_value(p.drop_last()) == 0);
                assert(p.last() == p[0]);
                assert(dec_value(p) == digit_val(p[0]));
                assert(p[0] != '0' && is_digit(p[0]));
            } else {
                let q = p.drop_last();
                assert(all_digits(q));
                lemma_dec_nonneg(q);
                assert(q[0] == p[0] && q[0] != '0');
                lemma_dec_value_head_positive(q);
                assert(dec_value(p) == dec_value(q) * 10 + digit_val(p.last()));
                assert(dec_value(q) * 10 >= 10) by (nonlinear_arith)
                    requires
                        dec_value(q) >= 1,
                ;
            }
        }
        let v = dec_value(s);
        assert(v == dec_value(p) * 10 + d);
        assert(v >= 10) by (nonlinear_arith)
            requires
                dec_value(p) >= 1,
                0 <= d,
                v == dec_value(p) * 10 + d,
        ;
        assert(v / 10 == dec_value(p) && v % 10 == d) by (nonlinear_arith)
            requires
                v == dec_value(p) * 10 + d,
                0 <= d < 10,
                0 <= dec_value(p),
        ;
        assert(dec_str(v) =~= dec_str(dec_value(p)).push(digit_char(d)));
        assert(is_digit(s.last()));
        assert(digit_char(d) == s.last());
        assert(s =~= p.push(s.last()));
    }
}

/// A digit string whose first digit is not zero has a positive value.
proof fn lemma_dec_value_head_positive(s: Seq<char>)
    requires
        s.len() >= 1,
        all_digits(s),
        s[0] != '0',
    ensures
        dec_value(s) >= 1,
    decreases s.len(),
{
    lemma_dec_nonneg(s);
    if s.len() == 1 {
        assert(s.drop_last() =~= Seq::<char>::empty());
        assert(dec_value(s.drop_last()) == 0);
        assert(s.last() == s[0]);
        assert(dec_value(s) == digit_val(s[0]));
        assert(is_digit(s[0]));
    } else {
        let p = s.drop_last();
        assert(all_digits(p));
        assert(p[0] == s[0]);
        lemma_dec_value_head_positive(p);
        assert(dec_value(s) == dec_value(p) * 10 + digit_val(s.last()));
        assert(dec_value(p) * 10 >= 10) by (nonlinear_arith)
            requires
                dec_value(p) >= 1,
        ;
        assert(is_digit(s.last()));
    }
}

/// A one-character string holding one digit.
fn digit_str(d: u64) -> (r: &'static str)
    requires
        d < 10,
    ensures
        r@.len() == 1,
        r@[0] == digit_char(d as int),
{
    proof {
        reveal_strlit("0");
        reveal_strlit("1");
        reveal_strlit("2");
        reveal_strlit("3");
        reveal_strlit("4");
        reveal_strlit("5");
        reveal_strlit("6");
        reveal_strlit("7");
        reveal_strlit("8");
        reveal_strlit("9");
    }
    match d {
        0 => "0",
        1 => "1",
        2 => "2",
        3 => "3",
        4 => "4",
        5 => "5",
        6 => "6",
        7 => "7",
        8 => "8",
        _ => "9",
    }
}

/// Render a value as decimal digits.
pub fn format_u64(v: u64) -> (r: String)
    ensures
        r@ == dec_str(v as int),
    decreases v,
{
    if v < 10 {
        let r = String::from_str(digit_str(v));
        proof {
            assert(r@ =~= dec_str(v as int));
        }
        r
    } else {
        let mut r = format_u64(v / 10);
        r.append(digit_str(v % 10));
        proof {
            assert(r@ =~= dec_str(v as int / 10).push(digit_char(v as int % 10)));
        }
        r
    }
}

/// Read an unsigned decimal: every character a digit, at least one of
/// them, the value within range.
pub fn parse_u64(s: &str) -> (r: Option<u64>)
    ensures
        r is Some <==> s@.len() > 0 && all_digits(s@) && dec_value(s@) <= u64::MAX,
        r matches Some(v) ==> v == dec_value(s@),
{
    let n = s.unicode_len();
    if n == 0 {
        return None;
    }
    let mut acc: u64 = 0;
    let mut i: usize = 0;
    proof {
        assert(s@.take(0) =~= Seq::<char>::empty());
    }
    while i < n
        invariant
            n == s@.len(),
            i <= n,
            all_digits(s@.take(i as int)),
            acc == dec_value(s@.take(i as int)),
        decreases n - i,
    {
        let c = s.get_char(i);
        if c < '0' || c > '9' {
            proof {
                assert(!is_digit(s@[i as int]));
            }
            return None;
        }
        let d: u64 = (c as u32 - '0' as u32) as u64;
        proof {
            assert(s@.take(i as int + 1).drop_last() =~= s@.take(i as int));
            assert(s@.take(i as int + 1).last() == s@[i as int]);
            assert(d == digit_val(s@[i as int]));
        }
        if acc > (u64::MAX - d) / 10 {
            proof {
                let p = s@.take(i as int + 1);
                assert(dec_value(p) == acc * 10 + d);
                assert(dec_value(p) > u64::MAX);
                if all_digits(s@) && dec_value(s@) <= u64::MAX {
                    lemma_dec_prefix(s@, i as int + 1);
                }
            }
            return None;
        }
        acc = acc * 10 + d;
        i += 1;
    }
    proof {
        assert(s@.take(n as int) =~= s@);
    }
    Some(acc)
}

/// Read a signed decimal: digits with an optional leading minus, the
/// value within range.
pub fn parse_i64(s: &str) -> (r: Option<i64>)
    ensures
        r is Some <==> is_int_str(s@) && i64::MIN <= int_value(s@) <= i64::MAX,
        r matches Some(v) ==> v == int_value(s@),
{
    let n = s.unicode_len();
    if n == 0 {
        return None;
    }
    let c0 = s.get_char(0);
    if c0 == '-' {
        let rest = s.substring_char(1, n);
        proof {
            assert(rest@ =~= s@.skip(1));
        }
        match parse_u64(rest) {
            None => {
                proof {
                    if is_int_str(s@) && i64::MIN <= int_value(s@) {
                        lemma_dec_nonneg(s@.skip(1));
                        assert(dec_value(s@.skip(1)) <= u64::MAX);
                    }
                }
                None
            }
            Some(mag) => {
                if mag > 0x8000_0000_0000_0000u64 {
                    proof {
                        assert(int_value(s@) < i64::MIN);
                    }
                    None
                } else if mag == 0x8000_0000_0000_0000u64 {
                    Some(i64::MIN)
                } else {
                    Some(-(mag as i64))
                }
            }
        }
    } else {
        match parse_u64(s) {
            None => {
                proof {
                    if is_int_str(s@) && int_value(s@) <= i64::MAX {
                        lemma_dec_nonneg(s@);
                    }
                }
                None
            }
            Some(mag) => {
                if mag > i64::MAX as u64 {
                    None
                } else {
                    Some(mag as i64)
                }
            }
        }
    }
}

/// Read a signed decimal within the 32-bit range.
pub fn parse_i32(s: &str) -> (r: Option<i32>)
    ensures
        r is Some <==> is_int_str(s@) && i32::MIN <= int_value(s@) <= i32::MAX,
        r matches Some(v) ==> v == int_value(s@),
{
    match parse_i64(s) {
        None => {
            proof {
                if is_int_str(s@) && i32::MIN <= int_value(s@) <= i32::MAX {
                    assert(i64::MIN <= int_value(s@) <= i64::MAX);
                }
            }
            None
        }
        Some(v) => {
            if v < i32::MIN as i64 || v > i32::MAX as i64 {
                None
            } else {
                Some(v as i32)
            }
        }
    }
}

/// The stored form of an order-id list: decimal digits joined by
/// commas, the empty list as the empty string.
pub open spec fn encoded_ids(ids: Seq<u64>) -> Seq<char>
    decreases ids.len(),
{
    if ids.len() == 0 {
        Seq::empty()
    } else if ids.len() == 1 {
        dec_str(ids[0] as int)
    } else {
        encoded_ids(ids.drop_last()) + seq![','] + dec_str(ids.last() as int)
    }
}

/// Index of the last comma, `-1` when there is none.
pub open spec fn last_comma(s: Seq<char>) -> int
    decreases s.len(),
{
    if s.len() == 0 {
        -1
    } else if s.last() == ',' {
        s.len() - 1
    } else {
        last_comma(s.drop_last())
    }
}

/// A digit run that can stand for one order id: non-empty, within
/// range, and without a leading zero.
pub open spec fn seg_ok(seg: Seq<char>) -> bool {
    &&& seg.len() >= 1
    &&& all_digits(seg)
    &&& dec_value(seg) <= u64::MAX
    &&& (seg.len() > 1 ==> seg[0] != '0')
}

/// The order-id list a stored string stands for, `None` where the
/// string is not a stored list.
pub open spec fn ids_of(s: Seq<char>) -> Option<Seq<u64>>
    decreases s.len(),
    via ids_of_decreases
{
    if s.len() == 0 {
        Some(Seq::empty())
    } else {
        let p = last_comma(s);
        if p < 0 {
            if seg_ok(s) {
                Some(seq![dec_value(s) as u64])
            } else {
                None
            }
        } else {
            let head = s.take(p);
            let seg = s.skip(p + 1);
            if head.len() == 0 || !seg_ok(seg) {
                None
            } else {
                match ids_of(head) {
                    Some(ids) => Some(ids.push(dec_value(seg) as u64)),
                    None => None,
                }
            }
        }
    }
}

#[via_fn]
proof fn ids_of_decreases(s: Seq<char>) {
    lemma_last_comma_props(s);
}

/// `last_comma` names the greatest comma position, or `-1` where no
/// comma occurs.
proof fn lemma_last_comma_props(s: Seq<char>)
    ensures
        last_comma(s) < s.len(),
        last_comma(s) >= 0 ==> s[last_comma(s)] == ',',
        forall|j: int| last_comma(s) < j < s.len() ==> s[j] != ',',
        last_comma(s) >= -1,
    decreases s.len(),
{
    if s.len() > 0 && s.last() != ',' {
        let p = s.drop_last();
        lemma_last_comma_props(p);
        assert(forall|j: int| 0 <= j < p.len() ==> p[j] == s[j]);
        assert forall|j: int| last_comma(s) < j < s.len() implies s[j] != ',' by {
            if j < s.len() - 1 {
                assert(p[j] != ',');
            }
        }
    }
}

/// In a string whose position `p` holds the last comma, everything
/// after `p` is comma-free; conversely a comma at `p` with none after
/// it pins `last_comma` to `p`.
proof fn lemma_last_comma_at(s: Seq<char>, p: int)
    requires
        0 <= p < s.len(),
        s[p] == ',',
        forall|j: int| p < j < s.len() ==> s[j] != ',',
    ensures
        last_comma(s) == p,
    decreases s.len(),
{
    if s.last() == ',' {
        assert(p == s.len() - 1);
    } else {
        let q = s.drop_last();
        assert(p < s.len() - 1);
        assert(forall|j: int| 0 <= j < q.len() ==> q[j] == s[j]);
        lemma_last_comma_at(q, p);
    }
}

/// Digit runs hold no comma.
proof fn lemma_digits_have_no_comma(s: Seq<char>)
    requires
        all_digits(s),
    ensures
        forall|j: int| 0 <= j < s.len() ==> s[j] != ',',
{
    assert forall|j: int| 0 <= j < s.len() implies s[j] != ',' by {
        assert(is_digit(s[j]));
    }
}

/// Render an order-id list in its stored form.
pub fn encode_order_ids(ids: &Vec<u64>) -> (r: String)
    ensures
        r@ == encoded_ids(ids@),
{
    proof {
        reveal_strlit(",");
    }
    let mut r = String::new();
    let mut i: usize = 0;
    proof {
        assert(ids@.take(0) =~= Seq::<u64>::empty());
        assert(r@ =~= encoded_ids(ids@.take(0)));
    }
    while i < ids.len()
        invariant
            i <= ids@.len(),
            r@ == encoded_ids(ids@.take(i as int)),
        decreases ids@.len() - i,
    {
        proof {
            reveal_strlit(",");
        }
        if i > 0 {
            r.append(",");
        }
        let digits = format_u64(ids[i]);
        r.append(digits.as_str());
        proof {
            let t1 = ids@.take(i as int + 1);
            assert(t1.drop_last() =~= ids@.take(i as int));
            assert(t1.last() == ids@[i as int]);
            if i == 0 {
                assert(t1.len() == 1);
                assert(t1[0] == ids@[0]);
                assert(r@ =~= encoded_ids(t1));
            } else {
                assert(","@ =~= seq![',']);
                assert(r@ =~= encoded_ids(ids@.take(i as int)) + seq![','] + dec_str(
                    ids@[i as int] as int,
                ));
                assert(r@ =~= encoded_ids(t1));
            }
        }
        i += 1;
    }
    proof {
        assert(ids@.take(ids@.len() as int) =~= ids@);
    }
    r
}

/// Read a stored order-id list back; `None` where the text is not one.
pub fn parse_order_ids(s: &str) -> (r: Option<Vec<u64>>)
    ensures
        match r {
            Some(v) => ids_of(s@) == Some(v@),
            None => ids_of(s@) is None,
        },
    decreases s@.len(),
{
    let n = s.unicode_len();
    if n == 0 {
        return Some(Vec::new());
    }
    proof {
        lemma_last_comma_props(s@);
    }
    // scan backward for the last comma
    let mut i: usize = n;
    let mut comma: Option<usize> = None;
    while i > 0 && comma.is_none()
        invariant
            i <= n,
            n == s@.len(),
            match comma {
                None => forall|j: int| i <= j < n ==> s@[j] != ',',
                Some(c) => c == i && i < n && s@[c as int] == ',' && forall|j: int|
                    i < j < n ==> s@[j] != ',',
            },
        decreases i,
    {
        i -= 1;
        if s.get_char(i) == ',' {
            comma = Some(i);
        }
    }
    match comma {
        None => {
            proof {
                assert(last_comma(s@) < 0) by {
                    if last_comma(s@) >= 0 {
                        assert(s@[last_comma(s@)] == ',');
                    }
                }
            }
            let seg_value = parse_u64(s);
            let canonical = match seg_value {
                Some(_) => n == 1 || s.get_char(0) != '0',
                None => false,
            };
            if canonical {
                let mut v = Vec::new();
                v.push(seg_value.unwrap());
                proof {
                    assert(seg_ok(s@));
                    assert(v@ =~= seq![dec_value(s@) as u64]);
                }
                Some(v)
            } else {
                proof {
                    assert(!seg_ok(s@));
                }
                None
            }
        }
        Some(p) => {
            proof {
                lemma_last_comma_at(s@, p as int);
            }
            let head = s.substring_char(0, p);
            let seg = s.substring_char(p + 1, n);
            proof {
                assert(head@ =~= s@.take(p as int));
                assert(seg@ =~= s@.skip(p as int + 1));
            }
            if p == 0 {
                return None;
            }
            let seg_value = match parse_u64(seg) {
                None => {
                    proof {
                        assert(!seg_ok(seg@));
                    }
                    return None;
                }
                Some(v) => v,
            };
            if seg.unicode_len() > 1 && seg.get_char(0) == '0' {
                proof {
                    assert(!seg_ok(seg@));
                }
                return None;
            }
            proof {
                assert(seg_ok(seg@));
            }
            match parse_order_ids(head) {
                None => None,
                Some(mut ids) => {
                    ids.push(seg_value);
                    proof {
                        let prior = ids@.drop_last();
                        assert(ids_of(head@) == Some(prior));
                        assert(ids@ =~= prior.push(dec_value(seg@) as u64));
                    }
                    Some(ids)
                }
            }
        }
    }
}

/// A non-empty list's stored form is non-empty.
proof fn lemma_encoded_nonempty(ids: Seq<u64>)
    requires
        ids.len() >= 1,
    ensures
        encoded_ids(ids).len() >= 1,
{
    if ids.len() == 1 {
        lemma_dec_str_props(ids[0] as int);
    }
}

/// The digits of an order id are an acceptable segment.
proof fn lemma_dec_str_seg_ok(v: u64)
    ensures
        seg_ok(dec_str(v as int)),
        dec_value(dec_str(v as int)) == v,
{
    lemma_dec_str_props(v as int);
    let s = dec_str(v as int);
    if s.len() > 1 {
        assert(v >= 1) by {
            if v < 10 {
                assert(s.len() == 1);
            }
        }
    }
}

/// Rendering an order-id list and reading it back yields the same
/// list: the stored format is lossless.
pub proof fn lemma_order_ids_round_trip(ids: Seq<u64>)
    ensures
        ids_of(encoded_ids(ids)) == Some(ids),
    decreases ids.len(),
{
    let s = encoded_ids(ids);
    if ids.len() == 0 {
        assert(s =~= Seq::<char>::empty());
        assert(ids_of(s) == Some(Seq::<u64>::empty()));
        assert(Seq::<u64>::empty() =~= ids);
    } else if ids.len() == 1 {
        let v = ids[0];
        lemma_dec_str_seg_ok(v);
        lemma_digits_have_no_comma(s);
        lemma_last_comma_props(s);
        assert(last_comma(s) < 0) by {
            if last_comma(s) >= 0 {
                assert(s[last_comma(s)] == ',');
            }
        }
        assert(ids_of(s) == Some(seq![dec_value(s) as u64]));
        assert(seq![dec_value(s) as u64] =~= ids);
    } else {
        let dl = ids.drop_last();
        let lastv = ids.last();
        lemma_order_ids_round_trip(dl);
        lemma_encoded_nonempty(dl);
        let head = encoded_ids(dl);
        let tail = dec_str(lastv as int);
        lemma_dec_str_seg_ok(lastv);
        assert(s == head + seq![','] + tail);
        let p = head.len() as int;
        assert(s.len() == p + 1 + tail.len());
        assert(s[p] == ',');
        lemma_digits_have_no_comma(tail);
        assert forall|j: int| p < j < s.len() implies s[j] != ',' by {
            assert(s[j] == tail[j - p - 1]);
        }
        lemma_last_comma_at(s, p);
        assert(s.take(p) =~= head);
        assert(s.skip(p + 1) =~= tail);
        assert(ids_of(s) == Some(dl.push(dec_value(tail) as u64)));
        assert(dl.push(dec_value(tail) as u64) =~= ids);
    }
}

/// Reading a stored list and rendering it again yields the very same
/// text: a stored order-id list has exactly one written form.
pub proof fn lemma_order_ids_canonical(s: Seq<char>, ids: Seq<u64>)
    requires
        ids_of(s) == Some(ids),
    ensures
        encoded_ids(ids) == s,
    decreases s.len(),
{
    lemma_last_comma_props(s);
    if s.len() == 0 {
        assert(ids =~= Seq::<u64>::empty());
        assert(encoded_ids(ids) =~= s);
    } else {
        let p = last_comma(s);
        if p < 0 {
            assert(seg_ok(s));
            lemma_dec_nonneg(s);
            assert(ids =~= seq![dec_value(s) as u64]);
            assert(ids[0] as int == dec_value(s));
            lemma_dec_str_canonical(s);
            assert(encoded_ids(ids) == dec_str(dec_value(s)));
        } else {
            let head = s.take(p);
            let seg = s.skip(p + 1);
            assert(head.len() > 0 && seg_ok(seg));
            let ids0 = ids_of(head).unwrap();
            lemma_order_ids_canonical(head, ids0);
            assert(ids0.len() >= 1) by {
                let q = last_comma(head);
                lemma_last_comma_props(head);
                if q < 0 {
                } else {
                    assert(ids0 == ids_of(head.take(q)).unwrap().push(
                        dec_value(head.skip(q + 1)) as u64,
                    ));
                }
            }
            lemma_dec_nonneg(seg);
            assert(ids =~= ids0.push(dec_value(seg) as u64));
            assert(ids.len() >= 2);
            assert(ids.drop_last() =~= ids0);
            assert(ids.last() as int == dec_value(seg));
            lemma_dec_str_canonical(seg);
            assert(encoded_ids(ids) == encoded_ids(ids0) + seq![','] + dec_str(dec_value(seg)));
            assert(encoded_ids(ids) =~= s);
        }
    }
}

/// Read a boolean: exactly the words `true` or `false`.
pub fn parse_bool(s: &str) -> (r: Option<bool>)
    ensures
        r is Some <==> (s@ == "true"@ || s@ == "false"@),
        r matches Some(b) ==> b == (s@ == "true"@),
{
    proof {
        reveal_strlit("true");
        reveal_strlit("false");
    }
    let n = s.unicode_len();
    if n == 4 {
        let ok = s.get_char(0) == 't' && s.get_char(1) == 'r' && s.get_char(2) == 'u'
            && s.get_char(3) == 'e';
        if ok {
            proof {
                assert(s@ =~= "true"@);
            }
            Some(true)
        } else {
            proof {
                assert(s@ != "true"@);
                assert(s@ != "false"@);
            }
            None
        }
    } else if n == 5 {
        let ok = s.get_char(0) == 'f' && s.get_char(1) == 'a' && s.get_char(2) == 'l'
            && s.get_char(3) == 's' && s.get_char(4) == 'e';
        if ok {
            proof {
                assert(s@ =~= "false"@);
            }
            Some(false)
        } else {
            proof {
                assert(s@ != "true"@);
                assert(s@ != "false"@);
            }
            None
        }
    } else {
        None
    }
}

} // verus!
