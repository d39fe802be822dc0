//! Decoding of one input row, already split into trimmed fields, into a
//! transaction record.

use crate::ledger::{Transaction, TransactionType};
use vstd::prelude::*;

verus! {

/// Largest whole part of an amount whose ten-thousandths fit in an `i64`.
pub const MAX_WHOLE: u64 = 922_337_203_685_477;

/// `b` is an ASCII decimal digit.
pub open spec fn is_digit(b: u8) -> bool {
    48 <= b <= 57
}

/// Every byte of `s` is a decimal digit.
pub open spec fn all_digits(s: Seq<u8>) -> bool {
    forall|i: int| 0 <= i < s.len() ==> is_digit(#[trigger] s[i])
}

/// The number written in decimal by the digits `s`.
pub open spec fn digits_value(s: Seq<u8>) -> nat
    decreases s.len(),
{
    if s.len() == 0 {
        0
    } else {
        digits_value(s.drop_last()) * 10 + (s.last() - 48) as nat
    }
}

/// The number written by `s`, a non-empty run of decimal digits, where it is
/// at most `limit`.
pub open spec fn number_of(s: Seq<u8>, limit: nat) -> Option<nat> {
    if s.len() > 0 && all_digits(s) && digits_value(s) <= limit {
        Some(digits_value(s))
    } else {
        None
    }
}

/// The factor that turns a fraction written with `n` digits (at most four)
/// into ten-thousandths.
pub open spec fn frac_scale(n: int) -> nat {
    if n == 0 {
        10000
    } else if n == 1 {
        1000
    } else if n == 2 {
        100
    } else if n == 3 {
        10
    } else {
        1
    }
}

/// `s` is an amount with its decimal point at `k`: digits before and after
/// it, at least one before and at most four after.
pub open spec fn point_at(s: Seq<u8>, k: int) -> bool {
    &&& 0 < k < s.len()
    &&& s[k] == 46
    &&& all_digits(s.subrange(0, k))
    &&& all_digits(s.subrange(k + 1, s.len() as int))
    &&& s.len() - k - 1 <= 4
}

/// The amount written by `s`, in ten-thousandths: a non-empty run of digits,
/// optionally followed by a point and up to four fractional digits.
pub open spec fn amount_value(s: Seq<u8>) -> Option<nat> {
    if all_digits(s) {
        if s.len() > 0 {
            Some(digits_value(s) * 10000)
        } else {
            None
        }
    } else if exists|k: int| point_at(s, k) {
        let k = choose|k: int| point_at(s, k);
        Some(
            digits_value(s.subrange(0, k)) * 10000 + digits_value(s.subrange(k + 1, s.len() as int))
                * frac_scale(s.len() - k - 1),
        )
    } else {
        None
    }
}

/// The amount written by `s` where it fits in an `i64`.
pub open spec fn amount_of(s: Seq<u8>) -> Option<i64> {
    match amount_value(s) {
        Some(v) => if v <= i64::MAX {
            Some(v as i64)
        } else {
            None
        },
        None => None,
    }
}

/// Ten to the `n`.
pub open spec fn pow10(n: nat) -> nat
    decreases n,
{
    if n == 0 {
        1
    } else {
        10 * pow10((n - 1) as nat)
    }
}

/// `n` digits write a number below ten to the `n`.
proof fn lemma_digits_bound(s: Seq<u8>)
    requires
        all_digits(s),
    ensures
        digits_value(s) < pow10(s.len()),
    decreases s.len(),
{
    if s.len() > 0 {
        let t = s.drop_last();
        assert(all_digits(t));
        assert(is_digit(s[s.len() - 1]));
        lemma_digits_bound(t);
    }
}

/// A point can stand at one place only: the first byte that is no digit.
proof fn lemma_point_unique(s: Seq<u8>, k: int, j: int)
    requires
        0 <= k < s.len(),
        all_digits(s.subrange(0, k)),
        !is_digit(s[k]),
        point_at(s, j),
    ensures
        j == k,
{
    if j < k {
        assert(s.subrange(0, k)[j] == s[j]);
    } else if j > k {
        assert(s.subrange(0, j)[k] == s[k]);
    }
}

/// Digits of a prefix never write a larger number than the whole.
proof fn lemma_digits_prefix(s: Seq<u8>, k: int)
    requires
        all_digits(s),
        0 <= k <= s.len(),
    ensures
        digits_value(s.subrange(0, k)) <= digits_value(s),
    decreases s.len(),
{
    if k < s.len() {
        let t = s.drop_last();
        assert(t.subrange(0, k) =~= s.subrange(0, k));
        assert(all_digits(t));
        lemma_digits_prefix(t, k);
    } else {
        assert(s.subrange(0, k) =~= s);
    }
}

/// The number written by `s[lo..hi]`, where it is a non-empty run of digits
/// of value at most `limit`.
pub fn parse_number(s: &[u8], lo: usize, hi: usize, limit: u64) -> (r: Option<u64>)
    requires
        lo <= hi <= s@.len(),
    ensures
        r matches Some(v) ==> number_of(s@.subrange(lo as int, hi as int), limit as nat) == Some(
            v as nat,
        ),
        r is None ==> number_of(s@.subrange(lo as int, hi as int), limit as nat) is None,
{
    let ghost w = s@.subrange(lo as int, hi as int);
    if lo == hi {
        return None;
    }
    let mut acc: u64 = 0;
    let mut i: usize = lo;
    while i < hi
        invariant
            lo <= i <= hi <= s@.len(),
            w == s@.subrange(lo as int, hi as int),
            all_digits(s@.subrange(lo as int, i as int)),
            acc as nat == digits_value(s@.subrange(lo as int, i as int)),
            acc <= limit,
        decreases hi - i,
    {
        let b = s[i];
        let ghost p = s@.subrange(lo as int, i + 1);
        assert(p.drop_last() =~= s@.subrange(lo as int, i as int));
        assert(w.subrange(0, i + 1 - lo) =~= p);
        if b < 48 || b > 57 {
            assert(!is_digit(w[i - lo]));
            return None;
        }
        let d: u64 = (b - 48) as u64;
        if d > limit || acc > (limit - d) / 10 {
            assert(digits_value(p) > limit) by (nonlinear_arith)
                requires
                    digits_value(p) == acc * 10 + d,
                    d > limit || acc > (limit - d) / 10,
            {
            }
            assert(all_digits(p));
            proof {
                if all_digits(w) {
                    lemma_digits_prefix(w, i + 1 - lo);
                }
            }
            return None;
        }
        assert(acc * 10 + d <= limit) by (nonlinear_arith)
            requires
                acc <= (limit - d) / 10,
                d <= limit,
        {
        }
        acc = acc * 10 + d;
        i = i + 1;
    }
    assert(s@.subrange(lo as int, i as int) =~= w);
    Some(acc)
}

/// The amount written by `s`, in ten-thousandths, where it is well formed and
/// fits in an `i64`.
pub fn parse_amount(s: &[u8]) -> (r: Option<i64>)
    ensures
        r == amount_of(s@),
{
    let len = s.len();
    let mut k: usize = 0;
    while k < len && 48 <= s[k] && s[k] <= 57
        invariant
            k <= len == s@.len(),
            all_digits(s@.subrange(0, k as int)),
        decreases len - k,
    {
        assert(s@.subrange(0, k + 1)[k as int] == s@[k as int]);
        k = k + 1;
    }
    let ghost v = amount_value(s@);
    if k == len {
        assert(s@.subrange(0, k as int) =~= s@);
        let w = parse_number(s, 0, len, MAX_WHOLE);
        assert(s@.subrange(0, len as int) =~= s@);
        match w {
            Some(w) => {
                return Some((w * 10000) as i64);
            },
            None => {
                return None;
            },
        }
    }
    assert(!all_digits(s@) && !is_digit(s@[k as int]));
    if k == 0 || s[k] != 46 || len - k - 1 > 4 {
        assert forall|j: int| !point_at(s@, j) by {
            if point_at(s@, j) {
                lemma_point_unique(s@, k as int, j);
            }
        }
        return None;
    }
    let f: u64 = if k + 1 == len {
        0
    } else {
        match parse_number(s, k + 1, len, 9999) {
            Some(f) => f,
            None => {
                let ghost fr = s@.subrange(k + 1, len as int);
                proof {
                    if all_digits(fr) {
                        lemma_digits_bound(fr);
                        assert(pow10(fr.len()) <= 10000) by {
                            reveal_with_fuel(pow10, 5);
                        }
                    }
                }
                assert forall|j: int| !point_at(s@, j) by {
                    if point_at(s@, j) {
                        lemma_point_unique(s@, k as int, j);
                    }
                }
                return None;
            },
        }
    };
    assert(point_at(s@, k as int));
    assert forall|j: int| point_at(s@, j) implies j == k by {
        lemma_point_unique(s@, k as int, j);
    }
    assert(digits_value(s@.subrange(k + 1, len as int)) == f) by {
        if k + 1 == len {
            assert(s@.subrange(k + 1, len as int).len() == 0);
        }
    }
    let w = match parse_number(s, 0, k, MAX_WHOLE) {
        Some(w) => w,
        None => {
            assert(digits_value(s@.subrange(0, k as int)) > MAX_WHOLE);
            return None;
        },
    };
    let n = len - k - 1;
    let scale: u64 = if n == 0 {
        10000
    } else if n == 1 {
        1000
    } else if n == 2 {
        100
    } else if n == 3 {
        10
    } else {
        1
    };
    let total: u128 = w as u128 * 10000 + f as u128 * scale as u128;
    if total <= i64::MAX as u128 {
        Some(total as i64)
    } else {
        None
    }
}

/// The name of each kind of record in the input.
pub open spec fn kind_name(t: TransactionType) -> Seq<u8> {
    match t {
        TransactionType::Deposit => seq![100u8, 101, 112, 111, 115, 105, 116],
        TransactionType::Withdrawal => seq![
            119u8,
            105,
            116,
            104,
            100,
            114,
            97,
            119,
            97,
            108,
        ],
        TransactionType::Dispute => seq![100u8, 105, 115, 112, 117, 116, 101],
        TransactionType::Resolve => seq![114u8, 101, 115, 111, 108, 118, 101],
        TransactionType::Chargeback => seq![
            99u8,
            104,
            97,
            114,
            103,
            101,
            98,
            97,
            99,
            107,
        ],
    }
}

/// The kind that `s` names, if any.
pub open spec fn type_of_name(s: Seq<u8>) -> Option<TransactionType> {
    if s == kind_name(TransactionType::Deposit) {
        Some(TransactionType::Deposit)
    } else if s == kind_name(TransactionType::Withdrawal) {
        Some(TransactionType::Withdrawal)
    } else if s == kind_name(TransactionType::Dispute) {
        Some(TransactionType::Dispute)
    } else if s == kind_name(TransactionType::Resolve) {
        Some(TransactionType::Resolve)
    } else if s == kind_name(TransactionType::Chargeback) {
        Some(TransactionType::Chargeback)
    } else {
        None
    }
}

fn bytes_equal(a: &[u8], b: &[u8]) -> (r: bool)
    ensures
        r == (a@ == b@),
{
    if a.len() != b.len() {
        return false;
    }
    let mut i: usize = 0;
    while i < a.len()
        invariant
            i <= a@.len() == b@.len(),
            a@.subrange(0, i as int) == b@.subrange(0, i as int),
        decreases a@.len() - i,
    {
        if a[i] != b[i] {
            return false;
        }
        assert(a@.subrange(0, i + 1) =~= a@.subrange(0, i as int).push(a@[i as int]));
        assert(b@.subrange(0, i + 1) =~= b@.subrange(0, i as int).push(b@[i as int]));
        i = i + 1;
    }
    assert(a@ =~= a@.subrange(0, i as int));
    assert(b@ =~= b@.subrange(0, i as int));
    true
}

/// The input name of kind `t`.
fn name_bytes(t: TransactionType) -> (r: Vec<u8>)
    ensures
        r@ == kind_name(t),
{
    let r = match t {
        TransactionType::Deposit => vec![100u8, 101, 112, 111, 115, 105, 116],
        TransactionType::Withdrawal => vec![119u8, 105, 116, 104, 100, 114, 97, 119, 97, 108],
        TransactionType::Dispute => vec![100u8, 105, 115, 112, 117, 116, 101],
        TransactionType::Resolve => vec![114u8, 101, 115, 111, 108, 118, 101],
        TransactionType::Chargeback => vec![99u8, 104, 97, 114, 103, 101, 98, 97, 99, 107],
    };
    assert(r@ =~= kind_name(t));
    r
}

/// The kind named by `s`: one of the five names, in lower case.
pub fn parse_type(s: &[u8]) -> (r: Option<TransactionType>)
    ensures
        r == type_of_name(s@),
{
    if bytes_equal(s, name_bytes(TransactionType::Deposit).as_slice()) {
        Some(TransactionType::Deposit)
    } else if bytes_equal(s, name_bytes(TransactionType::Withdrawal).as_slice()) {
        Some(TransactionType::Withdrawal)
    } else if bytes_equal(s, name_bytes(TransactionType::Dispute).as_slice()) {
        Some(TransactionType::Dispute)
    } else if bytes_equal(s, name_bytes(TransactionType::Resolve).as_slice()) {
        Some(TransactionType::Resolve)
    } else if bytes_equal(s, name_bytes(TransactionType::Chargeback).as_slice()) {
        Some(TransactionType::Chargeback)
    } else {
        None
    }
}

/// The record written by the fields `f` of one row: kind, client, tx and
/// amount, in that order, with an empty amount for none.
pub open spec fn decode_fields(f: Seq<Seq<u8>>) -> Option<Transaction> {
    if f.len() == 4 && type_of_name(f[0]) is Some && number_of(f[1], u16::MAX as nat) is Some
        && number_of(f[2], u32::MAX as nat) is Some && (f[3].len() == 0 || amount_of(f[3]) is Some) {
        Some(
            Transaction {
                transaction_type: type_of_name(f[0])->0,
                client: number_of(f[1], u16::MAX as nat)->0 as u16,
                tx: number_of(f[2], u32::MAX as nat)->0 as u32,
                amount: if f[3].len() == 0 {
                    None
                } else {
                    amount_of(f[3])
                },
            },
        )
    } else {
        None
    }
}

/// Decodes the fields of one row into a record, or `None` where the row is
/// malformed.
pub fn decode_row(fields: &Vec<Vec<u8>>) -> (r: Option<Transaction>)
    ensures
        r == decode_fields(fields.deep_view()),
{
    let ghost f = fields.deep_view();
    if fields.len() != 4 {
        return None;
    }
    assert(f[0] == fields@[0]@ && f[1] == fields@[1]@ && f[2] == fields@[2]@ && f[3]
        == fields@[3]@);
    let transaction_type = match parse_type(fields[0].as_slice()) {
        Some(t) => t,
        None => {
            return None;
        },
    };
    let client = match parse_number(fields[1].as_slice(), 0, fields[1].len(), u16::MAX as u64) {
        Some(c) => c as u16,
        None => {
            assert(fields@[1]@.subrange(0, fields@[1]@.len() as int) =~= f[1]);
            return None;
        },
    };
    assert(fields@[1]@.subrange(0, fields@[1]@.len() as int) =~= f[1]);
    let tx = match parse_number(fields[2].as_slice(), 0, fields[2].len(), u32::MAX as u64) {
        Some(t) => t as u32,
        None => {
            assert(fields@[2]@.subrange(0, fields@[2]@.len() as int) =~= f[2]);
            return None;
        },
    };
    assert(fields@[2]@.subrange(0, fields@[2]@.len() as int) =~= f[2]);
    let amount = if fields[3].len() == 0 {
        None
    } else {
        match parse_amount(fields[3].as_slice()) {
            Some(a) => Some(a),
            None => {
                return None;
            },
        }
    };
    Some(Transaction { transaction_type, client, tx, amount })
}

} // verus!
