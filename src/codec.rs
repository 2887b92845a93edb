//! The byte format of accounts and of whole account lists.
//!
//! Fields are laid out in declaration order: integers as little-endian bytes,
//! texts and byte strings as a four-byte little-endian length and the bytes
//! (texts in UTF-8), flags and variant tags as one byte, an absent optional
//! text as 0 and a present one as 1 and the text. A list is its four-byte
//! count and the items in order.

use vstd::prelude::*;
use vstd::bytes::{
    spec_u32_from_le_bytes, spec_u32_to_le_bytes, spec_u64_from_le_bytes, spec_u64_to_le_bytes,
    lemma_auto_spec_u32_to_from_le_bytes, lemma_auto_spec_u64_to_from_le_bytes,
};
use vstd::utf8::{decode_utf8, encode_utf8, valid_utf8, encode_utf8_decode_utf8, encode_utf8_valid_utf8};
use borsh::{BorshDeserialize, BorshSerialize};
use crate::account::{Account, AccountType, AccountView, KindView};
use crate::errors::LedgerError;
use crate::ledger::Ledger;

verus! {

broadcast use vstd::utf8::decode_utf8_encode_utf8;

// ---------------------------------------------------------------------------
// Encoding

/// A byte string with its length in front.
pub open spec fn bytes_field(b: Seq<u8>) -> Seq<u8> {
    spec_u32_to_le_bytes(b.len() as u32) + b
}

/// A text as its UTF-8 bytes with their length in front.
pub open spec fn text_field(s: Seq<char>) -> Seq<u8> {
    bytes_field(encode_utf8(s))
}

/// Whether the UTF-8 form of a text is short enough for its length field.
pub open spec fn text_fits(s: Seq<char>) -> bool {
    encode_utf8(s).len() <= u32::MAX
}

/// A flag as one byte.
pub open spec fn flag_field(f: bool) -> Seq<u8> {
    if f {
        seq![1u8]
    } else {
        seq![0u8]
    }
}

// ---------------------------------------------------------------------------
// Decoding. Each reader takes the position to read at and gives the value and
// the position after it, or `None` where the bytes there are not such a value.

/// An eight-byte little-endian integer.
pub open spec fn parse_u64(b: Seq<u8>, p: int) -> Option<(u64, int)> {
    if 0 <= p && p + 8 <= b.len() {
        Some((spec_u64_from_le_bytes(b.subrange(p, p + 8)), p + 8))
    } else {
        None
    }
}

/// A four-byte little-endian count.
pub open spec fn parse_count(b: Seq<u8>, p: int) -> Option<(u32, int)> {
    if 0 <= p && p + 4 <= b.len() {
        Some((spec_u32_from_le_bytes(b.subrange(p, p + 4)), p + 4))
    } else {
        None
    }
}

/// A byte string with its length in front.
pub open spec fn parse_bytes(b: Seq<u8>, p: int) -> Option<(Seq<u8>, int)> {
    match parse_count(b, p) {
        Some((n, q)) => if q + n <= b.len() {
            Some((b.subrange(q, q + n), q + n))
        } else {
            None
        },
        None => None,
    }
}

/// A text: a byte string that is valid UTF-8.
pub open spec fn parse_text(b: Seq<u8>, p: int) -> Option<(Seq<char>, int)> {
    match parse_bytes(b, p) {
        Some((x, q)) => if valid_utf8(x) {
            Some((decode_utf8(x), q))
        } else {
            None
        },
        None => None,
    }
}

/// One byte.
pub open spec fn parse_byte(b: Seq<u8>, p: int) -> Option<(u8, int)> {
    if 0 <= p < b.len() {
        Some((b[p], p + 1))
    } else {
        None
    }
}

/// A flag: the byte 0 or 1.
pub open spec fn parse_flag(b: Seq<u8>, p: int) -> Option<(bool, int)> {
    match parse_byte(b, p) {
        Some((x, q)) => if x <= 1 {
            Some((x == 1, q))
        } else {
            None
        },
        None => None,
    }
}

// ---------------------------------------------------------------------------
// The outside codec

/// Relies on borsh's `BorshSerialize` for `u64`: it writes the eight
/// little-endian bytes of the value; writing into a `Vec` does not fail.
#[verifier::external_body]
pub(crate) fn put_u64(out: &mut Vec<u8>, v: u64)
    ensures
        final(out)@ == old(out)@ + spec_u64_to_le_bytes(v),
{
    let _ = v.serialize(out);
}

/// Relies on borsh's `BorshSerialize` for `[u8]`: the length as four
/// little-endian bytes, then the bytes; a length over `u32::MAX` is refused
/// before anything is written.
#[verifier::external_body]
pub(crate) fn put_bytes(out: &mut Vec<u8>, b: &[u8]) -> (ok: bool)
    ensures
        ok == (b@.len() <= u32::MAX),
        ok ==> final(out)@ == old(out)@ + bytes_field(b@),
        !ok ==> final(out)@ == old(out)@,
{
    b.serialize(out).is_ok()
}

/// Relies on borsh's `BorshDeserialize` for `u64` on the bytes from `pos` on.
#[verifier::external_body]
pub(crate) fn take_u64(buf: &[u8], pos: usize) -> (r: Option<u64>)
    requires
        pos <= buf@.len(),
    ensures
        match parse_u64(buf@, pos as int) {
            Some((v, _)) => r == Some(v),
            None => r is None,
        },
{
    u64::deserialize(&mut &buf[pos..]).ok()
}

/// Relies on borsh's `BorshDeserialize` for `Vec<u8>` on the bytes from `pos`
/// on: a four-byte little-endian length, then that many bytes.
#[verifier::external_body]
pub(crate) fn take_bytes(buf: &[u8], pos: usize) -> (r: Option<Vec<u8>>)
    requires
        pos <= buf@.len(),
    ensures
        match parse_bytes(buf@, pos as int) {
            Some((x, _)) => r is Some && r->0@ == x,
            None => r is None,
        },
{
    Vec::<u8>::deserialize(&mut &buf[pos..]).ok()
}

/// Relies on borsh's `BorshDeserialize` for `String` on the bytes from `pos`
/// on: a byte string as `take_bytes` reads it, refused unless valid UTF-8.
#[verifier::external_body]
pub(crate) fn take_text(buf: &[u8], pos: usize) -> (r: Option<String>)
    requires
        pos <= buf@.len(),
    ensures
        match parse_text(buf@, pos as int) {
            Some((s, _)) => r is Some && r->0@ == s,
            None => r is None,
        },
{
    String::deserialize(&mut &buf[pos..]).ok()
}

// ---------------------------------------------------------------------------
// Field writers and readers

/// Appends a text field; `false`, leaving `out` as it was, when the text is too long.
pub(crate) fn put_text(out: &mut Vec<u8>, s: &String) -> (ok: bool)
    ensures
        ok == text_fits(s@),
        ok ==> final(out)@ == old(out)@ + text_field(s@),
        !ok ==> final(out)@ == old(out)@,
{
    put_bytes(out, s.as_str().as_bytes())
}

/// Appends a flag field.
pub(crate) fn put_flag(out: &mut Vec<u8>, f: bool)
    ensures
        final(out)@ == old(out)@ + flag_field(f),
{
    if f {
        out.push(1u8);
    } else {
        out.push(0u8);
    }
    assert(final(out)@ =~= old(out)@ + flag_field(f));
}

/// Appends a four-byte count.
pub(crate) fn put_count(out: &mut Vec<u8>, n: u32)
    ensures
        final(out)@ == old(out)@ + spec_u32_to_le_bytes(n),
{
    let mut b = vstd::bytes::u32_to_le_bytes(n);
    out.append(&mut b);
}

/// Reads a four-byte count at `pos`.
pub(crate) fn take_count(buf: &[u8], pos: usize) -> (r: Option<u32>)
    requires
        pos <= buf@.len(),
    ensures
        match parse_count(buf@, pos as int) {
            Some((v, _)) => r == Some(v),
            None => r is None,
        },
{
    if buf.len() - pos < 4 {
        return None;
    }
    let mut four: Vec<u8> = Vec::new();
    four.push(buf[pos]);
    four.push(buf[pos + 1]);
    four.push(buf[pos + 2]);
    four.push(buf[pos + 3]);
    assert(four@ =~= buf@.subrange(pos as int, pos + 4));
    Some(vstd::bytes::u32_from_le_bytes(four.as_slice()))
}

/// Reads a flag at `pos`.
pub(crate) fn take_flag(buf: &[u8], pos: usize) -> (r: Option<bool>)
    requires
        pos <= buf@.len(),
    ensures
        match parse_flag(buf@, pos as int) {
            Some((v, _)) => r == Some(v),
            None => r is None,
        },
{
    if pos >= buf.len() {
        None
    } else if buf[pos] == 0 {
        Some(false)
    } else if buf[pos] == 1 {
        Some(true)
    } else {
        None
    }
}

// ---------------------------------------------------------------------------
// Reading back what was written

/// Whether the bytes of `b` from position `p` on begin with `x`.
pub open spec fn holds_at(b: Seq<u8>, p: int, x: Seq<u8>) -> bool {
    0 <= p && p + x.len() <= b.len() && b.subrange(p, p + x.len()) == x
}

/// Bytes that begin with `x + y` begin with `x`, and then with `y`.
pub proof fn lemma_holds_split(b: Seq<u8>, p: int, x: Seq<u8>, y: Seq<u8>)
    requires
        holds_at(b, p, x + y),
    ensures
        holds_at(b, p, x),
        holds_at(b, p + x.len(), y),
{
    let whole = b.subrange(p, p + (x + y).len());
    assert(whole == x + y);
    assert(b.subrange(p, p + x.len()) =~= whole.subrange(0, x.len() as int));
    assert(whole.subrange(0, x.len() as int) =~= x);
    assert(b.subrange(p + x.len(), p + x.len() + y.len()) =~= whole.subrange(
        x.len() as int,
        (x.len() + y.len()) as int,
    ));
    assert(whole.subrange(x.len() as int, (x.len() + y.len()) as int) =~= y);
}

/// An integer written at `p` reads back.
pub proof fn lemma_parse_u64(b: Seq<u8>, p: int, v: u64)
    requires
        holds_at(b, p, spec_u64_to_le_bytes(v)),
    ensures
        spec_u64_to_le_bytes(v).len() == 8,
        parse_u64(b, p) == Some((v, p + 8)),
{
    lemma_auto_spec_u64_to_from_le_bytes();
}

/// A count written at `p` reads back.
pub proof fn lemma_parse_count(b: Seq<u8>, p: int, n: u32)
    requires
        holds_at(b, p, spec_u32_to_le_bytes(n)),
    ensures
        spec_u32_to_le_bytes(n).len() == 4,
        parse_count(b, p) == Some((n, p + 4)),
{
    lemma_auto_spec_u32_to_from_le_bytes();
}

/// A byte string written at `p` reads back.
pub proof fn lemma_parse_bytes(b: Seq<u8>, p: int, x: Seq<u8>)
    requires
        x.len() <= u32::MAX,
        holds_at(b, p, bytes_field(x)),
    ensures
        bytes_field(x).len() == 4 + x.len(),
        parse_bytes(b, p) == Some((x, p + 4 + x.len())),
{
    lemma_auto_spec_u32_to_from_le_bytes();
    lemma_holds_split(b, p, spec_u32_to_le_bytes(x.len() as u32), x);
    lemma_parse_count(b, p, x.len() as u32);
}

/// A text written at `p` reads back.
pub proof fn lemma_parse_text(b: Seq<u8>, p: int, s: Seq<char>)
    requires
        text_fits(s),
        holds_at(b, p, text_field(s)),
    ensures
        text_field(s).len() == 4 + encode_utf8(s).len(),
        parse_text(b, p) == Some((s, p + text_field(s).len())),
{
    lemma_parse_bytes(b, p, encode_utf8(s));
    encode_utf8_valid_utf8(s);
    encode_utf8_decode_utf8(s);
}

/// A flag written at `p` reads back.
pub proof fn lemma_parse_flag(b: Seq<u8>, p: int, f: bool)
    requires
        holds_at(b, p, flag_field(f)),
    ensures
        flag_field(f).len() == 1,
        parse_flag(b, p) == Some((f, p + 1)),
{
    assert(b[p] == b.subrange(p, p + 1)[0]);
}

// ---------------------------------------------------------------------------
// Accounts

/// An optional text: 0 when absent, 1 and the text when present.
pub open spec fn delegate_field(d: Option<Seq<char>>) -> Seq<u8> {
    match d {
        Some(t) => seq![1u8] + text_field(t),
        None => seq![0u8],
    }
}

/// The fields of a kind, after its tag.
pub open spec fn kind_payload(k: KindView) -> Seq<u8> {
    match k {
        KindView::Wallet { balance } => spec_u64_to_le_bytes(balance),
        KindView::Program { executable, program_data } => flag_field(executable) + bytes_field(
            program_data,
        ),
        KindView::TokenAccount { mint, token_balance, delegate } => text_field(mint)
            + spec_u64_to_le_bytes(token_balance) + delegate_field(delegate),
        KindView::Stake { validator, staked_amount } => text_field(validator)
            + spec_u64_to_le_bytes(staked_amount),
    }
}

/// The bytes of a kind: its tag, then its fields.
pub open spec fn kind_bytes(k: KindView) -> Seq<u8> {
    seq![k.tag()] + kind_payload(k)
}

/// Whether every text and byte string of a kind fits its length field.
pub open spec fn kind_fits(k: KindView) -> bool {
    match k {
        KindView::Wallet { .. } => true,
        KindView::Program { program_data, .. } => program_data.len() <= u32::MAX,
        KindView::TokenAccount { mint, delegate, .. } => text_fits(mint) && match delegate {
            Some(t) => text_fits(t),
            None => true,
        },
        KindView::Stake { validator, .. } => text_fits(validator),
    }
}

/// Whether every text and byte string of an account fits its length field.
pub open spec fn account_fits(a: AccountView) -> bool {
    text_fits(a.pubkey) && text_fits(a.owner) && kind_fits(a.kind)
}

/// The bytes of an account.
pub open spec fn account_bytes(a: AccountView) -> Seq<u8> {
    text_field(a.pubkey) + text_field(a.owner) + spec_u64_to_le_bytes(a.lamports) + kind_bytes(
        a.kind,
    ) + spec_u64_to_le_bytes(a.created_at)
}

/// Reads an optional text.
pub open spec fn parse_delegate(b: Seq<u8>, p: int) -> Option<(Option<Seq<char>>, int)> {
    match parse_byte(b, p) {
        Some((t, q)) => if t == 0 {
            Some((None, q))
        } else if t == 1 {
            match parse_text(b, q) {
                Some((s, r)) => Some((Some(s), r)),
                None => None,
            }
        } else {
            None
        },
        None => None,
    }
}

/// Reads a kind: a tag from 0 to 3, then the fields of that variant.
pub open spec fn parse_kind(b: Seq<u8>, p: int) -> Option<(KindView, int)> {
    match parse_byte(b, p) {
        Some((t, q)) => if t == 0 {
            match parse_u64(b, q) {
                Some((balance, r)) => Some((KindView::Wallet { balance }, r)),
                None => None,
            }
        } else if t == 1 {
            match parse_flag(b, q) {
                Some((executable, r)) => match parse_bytes(b, r) {
                    Some((program_data, e)) => Some(
                        (KindView::Program { executable, program_data }, e),
                    ),
                    None => None,
                },
                None => None,
            }
        } else if t == 2 {
            match parse_text(b, q) {
                Some((mint, r)) => match parse_u64(b, r) {
                    Some((token_balance, s)) => match parse_delegate(b, s) {
                        Some((delegate, e)) => Some(
                            (KindView::TokenAccount { mint, token_balance, delegate }, e),
                        ),
                        None => None,
                    },
                    None => None,
                },
                None => None,
            }
        } else if t == 3 {
            match parse_text(b, q) {
                Some((validator, r)) => match parse_u64(b, r) {
                    Some((staked_amount, e)) => Some(
                        (KindView::Stake { validator, staked_amount }, e),
                    ),
                    None => None,
                },
                None => None,
            }
        } else {
            None
        },
        None => None,
    }
}

/// Reads an account.
pub open spec fn parse_account(b: Seq<u8>, p: int) -> Option<(AccountView, int)> {
    match parse_text(b, p) {
        Some((pubkey, p1)) => match parse_text(b, p1) {
            Some((owner, p2)) => match parse_u64(b, p2) {
                Some((lamports, p3)) => match parse_kind(b, p3) {
                    Some((kind, p4)) => match parse_u64(b, p4) {
                        Some((created_at, p5)) => Some(
                            (AccountView { pubkey, owner, lamports, kind, created_at }, p5),
                        ),
                        None => None,
                    },
                    None => None,
                },
                None => None,
            },
            None => None,
        },
        None => None,
    }
}

/// The account that `b` holds, when it holds exactly one and nothing more.
pub open spec fn decode_account(b: Seq<u8>) -> Option<AccountView> {
    match parse_account(b, 0) {
        Some((a, q)) => if q == b.len() {
            Some(a)
        } else {
            None
        },
        None => None,
    }
}

fn put_kind(out: &mut Vec<u8>, k: &AccountType) -> (ok: bool)
    ensures
        ok == kind_fits(k@),
        ok ==> final(out)@ == old(out)@ + kind_bytes(k@),
{
    let ghost start = out@;
    out.push(k.tag());
    match k {
        AccountType::Wallet { balance } => {
            put_u64(out, *balance);
            assert(out@ =~= start + kind_bytes(k@));
            true
        },
        AccountType::Program { executable, program_data } => {
            put_flag(out, *executable);
            let ok = put_bytes(out, program_data.as_slice());
            assert(ok ==> out@ =~= start + kind_bytes(k@));
            ok
        },
        AccountType::TokenAccount { mint, token_balance, delegate } => {
            if !put_text(out, mint) {
                return false;
            }
            put_u64(out, *token_balance);
            match delegate {
                Some(d) => {
                    out.push(1u8);
                    let ok = put_text(out, d);
                    assert(ok ==> out@ =~= start + kind_bytes(k@));
                    ok
                },
                None => {
                    out.push(0u8);
                    assert(out@ =~= start + kind_bytes(k@));
                    true
                },
            }
        },
        AccountType::Stake { validator, staked_amount } => {
            if !put_text(out, validator) {
                return false;
            }
            put_u64(out, *staked_amount);
            assert(out@ =~= start + kind_bytes(k@));
            true
        },
    }
}

/// Appends the bytes of an account; `false` when a field is too long.
pub(crate) fn put_account(out: &mut Vec<u8>, a: &Account) -> (ok: bool)
    ensures
        ok == account_fits(a@),
        ok ==> final(out)@ == old(out)@ + account_bytes(a@),
{
    let ghost start = out@;
    if !put_text(out, &a.pubkey) {
        return false;
    }
    if !put_text(out, &a.owner) {
        return false;
    }
    put_u64(out, a.lamports);
    if !put_kind(out, &a.account_type) {
        return false;
    }
    put_u64(out, a.created_at);
    assert(out@ =~= start + account_bytes(a@));
    true
}

fn take_kind(buf: &[u8], pos: usize) -> (r: Option<(AccountType, usize)>)
    requires
        pos <= buf@.len(),
    ensures
        match parse_kind(buf@, pos as int) {
            Some((k, q)) => r is Some && (r->0).0@ == k && (r->0).1 == q,
            None => r is None,
        },
{
    if pos >= buf.len() {
        return None;
    }
    let t = buf[pos];
    let q = pos + 1;
    if t == 0 {
        match take_u64(buf, q) {
            Some(balance) => Some((AccountType::Wallet { balance }, q + 8)),
            None => None,
        }
    } else if t == 1 {
        let executable = match take_flag(buf, q) {
            Some(f) => f,
            None => return None,
        };
        let program_data = match take_bytes(buf, q + 1) {
            Some(d) => d,
            None => return None,
        };
        let e = q + 1 + 4 + program_data.len();
        Some((AccountType::Program { executable, program_data }, e))
    } else if t == 2 {
        let mint = match take_text(buf, q) {
            Some(m) => m,
            None => return None,
        };
        let r = q + 4 + mint.as_str().len();
        let token_balance = match take_u64(buf, r) {
            Some(v) => v,
            None => return None,
        };
        let s = r + 8;
        if s >= buf.len() {
            return None;
        }
        if buf[s] == 0 {
            Some((AccountType::TokenAccount { mint, token_balance, delegate: None }, s + 1))
        } else if buf[s] == 1 {
            match take_text(buf, s + 1) {
                Some(d) => {
                    let e = s + 1 + 4 + d.as_str().len();
                    Some((AccountType::TokenAccount { mint, token_balance, delegate: Some(d) }, e))
                },
                None => None,
            }
        } else {
            None
        }
    } else if t == 3 {
        let validator = match take_text(buf, q) {
            Some(v) => v,
            None => return None,
        };
        let r = q + 4 + validator.as_str().len();
        match take_u64(buf, r) {
            Some(staked_amount) => Some((AccountType::Stake { validator, staked_amount }, r + 8)),
            None => None,
        }
    } else {
        None
    }
}

/// Reads an account at `pos`.
pub(crate) fn take_account(buf: &[u8], pos: usize) -> (r: Option<(Account, usize)>)
    requires
        pos <= buf@.len(),
    ensures
        match parse_account(buf@, pos as int) {
            Some((a, q)) => r is Some && (r->0).0@ == a && (r->0).1 == q,
            None => r is None,
        },
        r is Some ==> (r->0).1 <= buf@.len(),
{
    if pos > buf.len() {
        return None;
    }
    let pubkey = match take_text(buf, pos) {
        Some(s) => s,
        None => return None,
    };
    let p1 = pos + 4 + pubkey.as_str().len();
    let owner = match take_text(buf, p1) {
        Some(s) => s,
        None => return None,
    };
    let p2 = p1 + 4 + owner.as_str().len();
    let lamports = match take_u64(buf, p2) {
        Some(v) => v,
        None => return None,
    };
    let p3 = p2 + 8;
    let (account_type, p4) = match take_kind(buf, p3) {
        Some(x) => x,
        None => return None,
    };
    let created_at = match take_u64(buf, p4) {
        Some(v) => v,
        None => return None,
    };
    Some((Account { pubkey, owner, lamports, account_type, created_at }, p4 + 8))
}

impl Account {
    /// The bytes of this account; fails when a text or byte string is longer
    /// than its length field can state.
    pub fn save_to_bytes(&self) -> (r: Result<Vec<u8>, LedgerError>)
        ensures
            match r {
                Ok(bytes) => account_fits(self@) && bytes@ == account_bytes(self@),
                Err(e) => !account_fits(self@) && e is SerializationError,
            },
    {
        let mut out: Vec<u8> = Vec::new();
        if put_account(&mut out, self) {
            assert(out@ =~= account_bytes(self@));
            Ok(out)
        } else {
            Err(LedgerError::SerializationError(String::from_str("account field too long to encode")))
        }
    }

    /// The account that `buf` holds; fails unless `buf` is exactly the bytes
    /// of one account.
    pub fn from_bytes(buf: &[u8]) -> (r: Result<Account, LedgerError>)
        ensures
            match decode_account(buf@) {
                Some(a) => r is Ok && r->Ok_0@ == a,
                None => r is Err && r->Err_0 is SerializationError,
            },
    {
        match take_account(buf, 0) {
            Some((a, end)) => {
                if end == buf.len() {
                    Ok(a)
                } else {
                    Err(LedgerError::SerializationError(String::from_str("not all bytes read")))
                }
            },
            None => Err(LedgerError::SerializationError(String::from_str("bytes do not hold an account"))),
        }
    }
}

proof fn lemma_parse_byte(b: Seq<u8>, p: int, t: u8)
    requires
        holds_at(b, p, seq![t]),
    ensures
        parse_byte(b, p) == Some((t, p + 1)),
{
    assert(b[p] == b.subrange(p, p + 1)[0]);
}

proof fn lemma_parse_delegate(b: Seq<u8>, p: int, d: Option<Seq<char>>)
    requires
        holds_at(b, p, delegate_field(d)),
        d is Some ==> text_fits(d->0),
    ensures
        parse_delegate(b, p) == Some((d, p + delegate_field(d).len())),
{
    match d {
        Some(t) => {
            lemma_holds_split(b, p, seq![1u8], text_field(t));
            lemma_parse_byte(b, p, 1u8);
            lemma_parse_text(b, p + 1, t);
        },
        None => {
            lemma_parse_byte(b, p, 0u8);
        },
    }
}

proof fn lemma_parse_kind(b: Seq<u8>, p: int, k: KindView)
    requires
        kind_fits(k),
        holds_at(b, p, kind_bytes(k)),
    ensures
        parse_kind(b, p) == Some((k, p + kind_bytes(k).len())),
{
    lemma_auto_spec_u64_to_from_le_bytes();
    let q = p + 1;
    lemma_holds_split(b, p, seq![k.tag()], kind_payload(k));
    lemma_parse_byte(b, p, k.tag());
    match k {
        KindView::Wallet { balance } => {
            lemma_parse_u64(b, q, balance);
        },
        KindView::Program { executable, program_data } => {
            lemma_holds_split(b, q, flag_field(executable), bytes_field(program_data));
            lemma_parse_flag(b, q, executable);
            lemma_parse_bytes(b, q + 1, program_data);
        },
        KindView::TokenAccount { mint, token_balance, delegate } => {
            let m = text_field(mint);
            let v = spec_u64_to_le_bytes(token_balance);
            lemma_holds_split(b, q, m + v, delegate_field(delegate));
            lemma_holds_split(b, q, m, v);
            lemma_parse_text(b, q, mint);
            lemma_parse_u64(b, q + m.len(), token_balance);
            lemma_parse_delegate(b, q + m.len() + 8, delegate);
        },
        KindView::Stake { validator, staked_amount } => {
            let m = text_field(validator);
            lemma_holds_split(b, q, m, spec_u64_to_le_bytes(staked_amount));
            lemma_parse_text(b, q, validator);
            lemma_parse_u64(b, q + m.len(), staked_amount);
        },
    }
}

/// Reading the bytes of an account at `p` gives the account back, and the
/// position just after its bytes.
pub proof fn lemma_parse_account(b: Seq<u8>, p: int, a: AccountView)
    requires
        account_fits(a),
        holds_at(b, p, account_bytes(a)),
    ensures
        parse_account(b, p) == Some((a, p + account_bytes(a).len())),
{
    lemma_auto_spec_u64_to_from_le_bytes();
    let f1 = text_field(a.pubkey);
    let f2 = text_field(a.owner);
    let f3 = spec_u64_to_le_bytes(a.lamports);
    let f4 = kind_bytes(a.kind);
    let f5 = spec_u64_to_le_bytes(a.created_at);
    lemma_holds_split(b, p, f1 + f2 + f3 + f4, f5);
    lemma_holds_split(b, p, f1 + f2 + f3, f4);
    lemma_holds_split(b, p, f1 + f2, f3);
    lemma_holds_split(b, p, f1, f2);
    lemma_parse_text(b, p, a.pubkey);
    lemma_parse_text(b, p + f1.len(), a.owner);
    lemma_parse_u64(b, p + f1.len() + f2.len(), a.lamports);
    lemma_parse_kind(b, p + f1.len() + f2.len() + 8, a.kind);
    lemma_parse_u64(b, p + f1.len() + f2.len() + 8 + f4.len(), a.created_at);
}

/// Decoding the bytes of an account gives back the same account, field for
/// field, for every kind.
pub proof fn lemma_account_round_trip(a: AccountView)
    requires
        account_fits(a),
    ensures
        decode_account(account_bytes(a)) == Some(a),
{
    let b = account_bytes(a);
    assert(b.subrange(0, b.len() as int) =~= b);
    lemma_parse_account(b, 0, a);
}

// ---------------------------------------------------------------------------
// Account lists

/// The bytes of the accounts of `s`, one after another.
pub open spec fn accounts_bytes(s: Seq<AccountView>) -> Seq<u8>
    decreases s.len(),
{
    if s.len() == 0 {
        Seq::empty()
    } else {
        accounts_bytes(s.drop_last()) + account_bytes(s.last())
    }
}

/// The bytes of a list of accounts: the count, then the accounts.
pub open spec fn ledger_bytes(s: Seq<AccountView>) -> Seq<u8> {
    spec_u32_to_le_bytes(s.len() as u32) + accounts_bytes(s)
}

/// Whether the count and every account of `s` fit their length fields.
pub open spec fn ledger_fits(s: Seq<AccountView>) -> bool {
    s.len() <= u32::MAX && forall|i: int| 0 <= i < s.len() ==> account_fits(#[trigger] s[i])
}

/// Reads `n` accounts one after another.
pub open spec fn parse_accounts(b: Seq<u8>, p: int, n: nat) -> Option<(Seq<AccountView>, int)>
    decreases n,
{
    if n == 0 {
        Some((Seq::empty(), p))
    } else {
        match parse_accounts(b, p, (n - 1) as nat) {
            Some((s, q)) => match parse_account(b, q) {
                Some((a, e)) => Some((s.push(a), e)),
                None => None,
            },
            None => None,
        }
    }
}

/// The list of accounts that `b` holds, when it holds exactly one list.
pub open spec fn decode_ledger(b: Seq<u8>) -> Option<Seq<AccountView>> {
    match parse_count(b, 0) {
        Some((n, q)) => match parse_accounts(b, q, n as nat) {
            Some((s, e)) => if e == b.len() {
                Some(s)
            } else {
                None
            },
            None => None,
        },
        None => None,
    }
}

proof fn lemma_parse_accounts_fails(b: Seq<u8>, p: int, m: nat, n: nat)
    requires
        m <= n,
        parse_accounts(b, p, m) is None,
    ensures
        parse_accounts(b, p, n) is None,
    decreases n - m,
{
    if m < n {
        lemma_parse_accounts_fails(b, p, m, (n - 1) as nat);
    }
}

proof fn lemma_parse_accounts(b: Seq<u8>, p: int, s: Seq<AccountView>)
    requires
        forall|i: int| 0 <= i < s.len() ==> account_fits(#[trigger] s[i]),
        holds_at(b, p, accounts_bytes(s)),
    ensures
        parse_accounts(b, p, s.len()) == Some((s, p + accounts_bytes(s).len())),
    decreases s.len(),
{
    if s.len() == 0 {
        assert(s =~= Seq::<AccountView>::empty());
    } else {
        let init = s.drop_last();
        lemma_holds_split(b, p, accounts_bytes(init), account_bytes(s.last()));
        assert forall|i: int| 0 <= i < init.len() implies account_fits(#[trigger] init[i]) by {
            assert(init[i] == s[i]);
        }
        lemma_parse_accounts(b, p, init);
        assert(account_fits(s[s.len() - 1]));
        lemma_parse_account(b, p + accounts_bytes(init).len(), s.last());
        assert(init.push(s.last()) =~= s);
    }
}

/// Decoding the bytes of a list of accounts gives back the same list.
pub proof fn lemma_ledger_round_trip(s: Seq<AccountView>)
    requires
        ledger_fits(s),
    ensures
        decode_ledger(ledger_bytes(s)) == Some(s),
{
    let b = ledger_bytes(s);
    assert(b.subrange(0, b.len() as int) =~= b);
    lemma_holds_split(b, 0, spec_u32_to_le_bytes(s.len() as u32), accounts_bytes(s));
    lemma_parse_count(b, 0, s.len() as u32);
    lemma_parse_accounts(b, 4, s);
}

impl Ledger {
    /// The bytes of the whole collection of accounts; fails when there are
    /// more accounts, or longer fields, than the length fields can state.
    pub fn to_bytes(&self) -> (r: Result<Vec<u8>, LedgerError>)
        ensures
            match r {
                Ok(bytes) => ledger_fits(self@) && bytes@ == ledger_bytes(self@),
                Err(e) => !ledger_fits(self@) && e is SerializationError,
            },
    {
        let n = self.accounts.len();
        if n > 0xffff_ffff {
            return Err(LedgerError::SerializationError(String::from_str("too many accounts to encode")));
        }
        let mut out: Vec<u8> = Vec::new();
        put_count(&mut out, n as u32);
        let mut i: usize = 0;
        while i < n
            invariant
                n == self.accounts@.len(),
                n <= u32::MAX,
                i <= n,
                forall|j: int| 0 <= j < i ==> account_fits(#[trigger] self@[j]),
                out@ == spec_u32_to_le_bytes(n as u32) + accounts_bytes(self@.subrange(0, i as int)),
            decreases n - i,
        {
            let ghost before = out@;
            if !put_account(&mut out, &self.accounts[i]) {
                assert(!account_fits(self@[i as int]));
                return Err(LedgerError::SerializationError(String::from_str("account field too long to encode")));
            }
            proof {
                let sub = self@.subrange(0, i + 1);
                assert(sub.drop_last() =~= self@.subrange(0, i as int));
                assert(sub.last() == self@[i as int]);
                assert(out@ =~= spec_u32_to_le_bytes(n as u32) + accounts_bytes(sub));
            }
            i += 1;
        }
        assert(self@.subrange(0, n as int) =~= self@);
        Ok(out)
    }

    /// The ledger whose accounts `buf` holds; fails unless `buf` is exactly
    /// the bytes of one list of accounts.
    pub fn from_bytes(buf: &[u8]) -> (r: Result<Ledger, LedgerError>)
        ensures
            match decode_ledger(buf@) {
                Some(s) => r is Ok && r->Ok_0@ == s,
                None => r is Err && r->Err_0 is SerializationError,
            },
    {
        let n = match take_count(buf, 0) {
            Some(n) => n,
            None => return Err(LedgerError::SerializationError(String::from_str("missing account count"))),
        };
        let mut accounts: Vec<Account> = Vec::new();
        let mut pos: usize = 4;
        let mut k: u32 = 0;
        while k < n
            invariant
                k <= n,
                pos <= buf@.len(),
                parse_count(buf@, 0) == Some((n, 4int)),
                parse_accounts(buf@, 4, k as nat) == Some(
                    (accounts@.map_values(|a: Account| a@), pos as int),
                ),
            decreases n - k,
        {
            match take_account(buf, pos) {
                Some((a, e)) => {
                    let ghost before = accounts@.map_values(|a: Account| a@);
                    accounts.push(a);
                    assert(accounts@.map_values(|a: Account| a@) =~= before.push(a@));
                    pos = e;
                    k += 1;
                },
                None => {
                    proof {
                        lemma_parse_accounts_fails(buf@, 4, (k + 1) as nat, n as nat);
                    }
                    return Err(LedgerError::SerializationError(String::from_str("bytes do not hold an account")));
                },
            }
        }
        if pos != buf.len() {
            return Err(LedgerError::SerializationError(String::from_str("not all bytes read")));
        }
        let r = Ledger { accounts };
        assert(r@ =~= accounts@.map_values(|a: Account| a@));
        Ok(r)
    }
}

} // verus!
