//! Rendering of the final account table as csv text.

use crate::ledger::{total, Account, AccountView, Ledger};
use vstd::prelude::*;

verus! {

/// Every byte of `s` is an ASCII character.
pub open spec fn all_ascii(s: Seq<u8>) -> bool {
    forall|i: int| 0 <= i < s.len() ==> #[trigger] s[i] < 128
}

/// The text that ASCII bytes `b` spell: one character per byte.
pub open spec fn ascii_chars(b: Seq<u8>) -> Seq<char> {
    b.map_values(|c: u8| c as char)
}

/// Relies on `String::from_utf8`: ASCII bytes are valid UTF-8, and each byte
/// is one character of the result.
#[verifier::external_body]
fn ascii_to_string(b: Vec<u8>) -> (r: String)
    requires
        all_ascii(b@),
    ensures
        r@ == ascii_chars(b@),
{
    String::from_utf8(b).unwrap()
}

/// The decimal digits of `n`, most significant first.
pub open spec fn digits_of(n: nat) -> Seq<u8>
    decreases n,
{
    if n < 10 {
        seq![(48 + n) as u8]
    } else {
        digits_of(n / 10).push((48 + n % 10) as u8)
    }
}

/// The four digits of `f`, below ten thousand, with leading zeros.
pub open spec fn four_digits(f: nat) -> Seq<u8> {
    seq![
        (48 + f / 1000) as u8,
        (48 + (f / 100) % 10) as u8,
        (48 + (f / 10) % 10) as u8,
        (48 + f % 10) as u8,
    ]
}

/// The magnitude of `v`.
pub open spec fn abs(v: int) -> nat {
    if v < 0 {
        (-v) as nat
    } else {
        v as nat
    }
}

/// An amount of ten-thousandths `v` written with exactly four fractional
/// digits, and a minus sign where it is negative.
pub open spec fn amount_text(v: int) -> Seq<u8> {
    (if v < 0 {
        seq![45u8]
    } else {
        Seq::empty()
    }) + digits_of(abs(v) / 10000) + seq![46u8] + four_digits(abs(v) % 10000)
}

/// `true` or `false`, as written in the table.
pub open spec fn bool_text(b: bool) -> Seq<u8> {
    if b {
        true_text()
    } else {
        false_text()
    }
}

/// One line of the table: client, available, held, total, locked.
pub open spec fn row_text(client: nat, a: AccountView) -> Seq<u8> {
    digits_of(client) + seq![44u8] + amount_text(a.available) + seq![44u8] + amount_text(a.held)
        + seq![44u8] + amount_text(total(a)) + seq![44u8] + bool_text(a.locked)
}

/// The lines of the clients below `n` that have an account, in increasing
/// order of id, each preceded by a newline.
pub open spec fn rows_below(m: Map<u16, AccountView>, n: int) -> Seq<u8>
    decreases n,
{
    if n <= 0 {
        Seq::empty()
    } else {
        rows_below(m, n - 1) + if m.contains_key((n - 1) as u16) {
            seq![10u8] + row_text((n - 1) as nat, m[(n - 1) as u16])
        } else {
            Seq::empty()
        }
    }
}

/// The whole report: the header line, one line per client in increasing order
/// of id, and a final newline.
pub open spec fn report_text(m: Map<u16, AccountView>) -> Seq<u8> {
    header_text() + rows_below(m, 0x10000) + seq![10u8]
}

/// `client,available,held,total,locked`
pub open spec fn header_text() -> Seq<u8> {
    seq![99u8, 108, 105, 101, 110, 116, 44, 97, 118, 97, 105, 108, 97, 98, 108, 101, 44, 104, 101, 108, 100, 44, 116, 111, 116, 97, 108, 44, 108, 111, 99, 107, 101, 100]
}

/// `true`
pub open spec fn true_text() -> Seq<u8> {
    seq![116u8, 114, 117, 101]
}

/// `false`
pub open spec fn false_text() -> Seq<u8> {
    seq![102u8, 97, 108, 115, 101]
}


/// Appends the bytes of `b`.
fn push_bytes(out: &mut Vec<u8>, b: Vec<u8>)
    ensures
        final(out)@ == old(out)@ + b@,
        all_ascii(old(out)@) && all_ascii(b@) ==> all_ascii(final(out)@),
{
    let mut b = b;
    out.append(&mut b);
}

/// Appends one ASCII byte.
fn push_byte(out: &mut Vec<u8>, b: u8)
    requires
        b < 128,
    ensures
        final(out)@ == old(out)@.push(b),
        all_ascii(old(out)@) ==> all_ascii(final(out)@),
{
    out.push(b);
}

/// Appends the decimal digits of `n`.
fn push_digits(out: &mut Vec<u8>, n: u128)
    ensures
        final(out)@ == old(out)@ + digits_of(n as nat),
        all_ascii(old(out)@) ==> all_ascii(final(out)@),
    decreases n,
{
    if n >= 10 {
        push_digits(out, n / 10);
    }
    out.push(48 + (n % 10) as u8);
    assert(final(out)@ =~= old(out)@ + digits_of(n as nat));
}

/// Appends amount `v` with four fractional digits.
fn push_amount(out: &mut Vec<u8>, v: i128)
    requires
        v > i128::MIN,
    ensures
        final(out)@ == old(out)@ + amount_text(v as int),
        all_ascii(old(out)@) ==> all_ascii(final(out)@),
{
    let ghost start = out@;
    let a: u128 = if v < 0 {
        out.push(45);
        (-v) as u128
    } else {
        v as u128
    };
    push_digits(out, a / 10000);
    out.push(46);
    let f = a % 10000;
    out.push(48 + (f / 1000) as u8);
    out.push(48 + ((f / 100) % 10) as u8);
    out.push(48 + ((f / 10) % 10) as u8);
    out.push(48 + (f % 10) as u8);
    assert(out@ =~= start + amount_text(v as int));
}

/// Appends one line of the table for `client`.
#[verifier::rlimit(30)]
fn push_row(out: &mut Vec<u8>, client: u16, account: &Account)
    ensures
        final(out)@ == old(out)@ + row_text(client as nat, account@),
        all_ascii(old(out)@) ==> all_ascii(final(out)@),
{
    let ghost start = out@;
    push_digits(out, client as u128);
    push_byte(out, 44);
    push_amount(out, account.available as i128);
    push_byte(out, 44);
    push_amount(out, account.held as i128);
    push_byte(out, 44);
    push_amount(out, account.total());
    push_byte(out, 44);
    if account.locked {
        push_bytes(out, vec![116u8, 114, 117, 101]);
    } else {
        push_bytes(out, vec![102u8, 97, 108, 115, 101]);
    }
    assert(out@ =~= start + row_text(client as nat, account@));
}

impl Ledger {
    /// The table as csv text: a header line, then one line per client in
    /// increasing order of id, then a newline.
    pub fn report_bytes(&self) -> (r: Vec<u8>)
        ensures
            r@ == report_text(self@),
            all_ascii(r@),
    {
        let mut out: Vec<u8> = vec![99u8, 108, 105, 101, 110, 116, 44, 97, 118, 97, 105, 108, 97, 98, 108, 101, 44, 104, 101, 108, 100, 44, 116, 111, 116, 97, 108, 44, 108, 111, 99, 107, 101, 100];
        assert(out@ =~= header_text());
        let mut c: u32 = 0;
        while c < 0x10000
            invariant
                c <= 0x10000,
                out@ == header_text() + rows_below(self@, c as int),
                all_ascii(out@),
            decreases 0x10000 - c,
        {
            let ghost before = out@;
            if let Some(account) = self.get(c as u16) {
                out.push(10);
                push_row(&mut out, c as u16, account);
            }
            assert(out@ =~= header_text() + rows_below(self@, c + 1));
            c = c + 1;
        }
        out.push(10);
        out
    }

    /// The table as csv text; see `report_bytes`.
    pub fn report(&self) -> (r: String)
        ensures
            r@ == ascii_chars(report_text(self@)),
    {
        ascii_to_string(self.report_bytes())
    }
}

} // verus!
