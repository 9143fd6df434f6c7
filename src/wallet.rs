use vstd::prelude::*;
use vstd::utf8::{decode_utf8, encode_utf8, valid_utf8};

use crate::error::CustomError;
use crate::parser::{append_bytes, BufferParser};

verus! {

/// A wallet: a name and a key pair, as printable strings.
#[derive(Debug)]
pub struct Wallet {
    pub name: String,
    pub pubkey: String,
    pub privkey: String,
}

impl View for Wallet {
    type V = (Seq<char>, Seq<char>, Seq<char>);

    open spec fn view(&self) -> (Seq<char>, Seq<char>, Seq<char>) {
        (self.name@, self.pubkey@, self.privkey@)
    }
}

/// Where the field that starts at `start` ends: after its length byte and
/// that many bytes.
pub open spec fn field_end(s: Seq<u8>, start: int) -> int {
    start + 1 + s[start] as int
}

/// The field at `start` is complete and its bytes are valid UTF-8.
pub open spec fn field_ok(s: Seq<u8>, start: int) -> bool {
    &&& 0 <= start < s.len()
    &&& field_end(s, start) <= s.len()
    &&& valid_utf8(s.subrange(start + 1, field_end(s, start)))
}

/// The text of the field at `start`.
pub open spec fn field_text(s: Seq<u8>, start: int) -> Seq<char> {
    decode_utf8(s.subrange(start + 1, field_end(s, start)))
}

/// The three fields of a record start at 0, `record_mid(s)` and `record_last(s)`.
pub open spec fn record_mid(s: Seq<u8>) -> int {
    field_end(s, 0)
}

pub open spec fn record_last(s: Seq<u8>) -> int {
    field_end(s, record_mid(s))
}

/// `s` starts with a complete record.
pub open spec fn record_ok(s: Seq<u8>) -> bool {
    field_ok(s, 0) && field_ok(s, record_mid(s)) && field_ok(s, record_last(s))
}

/// The length of the record at the start of `s`.
pub open spec fn record_len(s: Seq<u8>) -> int {
    field_end(s, record_last(s))
}

/// What a wallet file holds: records up to its end, or nothing if a record
/// is cut short or holds a field that is not UTF-8.
pub open spec fn parse_wallet_file(s: Seq<u8>) -> Option<Seq<(Seq<char>, Seq<char>, Seq<char>)>>
    decreases s.len(),
{
    if s.len() == 0 {
        Some(Seq::empty())
    } else if !record_ok(s) {
        None
    } else {
        match parse_wallet_file(s.skip(record_len(s))) {
            Some(rest) => Some(
                seq![(field_text(s, 0), field_text(s, record_mid(s)), field_text(s, record_last(s)))]
                    + rest,
            ),
            None => None,
        }
    }
}

/// `prefix` followed by what `tail` holds, if it holds anything.
pub open spec fn prepend_wallets(
    prefix: Seq<(Seq<char>, Seq<char>, Seq<char>)>,
    tail: Option<Seq<(Seq<char>, Seq<char>, Seq<char>)>>,
) -> Option<Seq<(Seq<char>, Seq<char>, Seq<char>)>> {
    match tail {
        Some(t) => Some(prefix + t),
        None => None,
    }
}

proof fn lemma_field_shift(s: Seq<u8>, k: int, j: int)
    requires
        0 <= k <= s.len(),
        0 <= j,
    ensures
        field_ok(s.skip(k), j) == field_ok(s, k + j),
        field_ok(s, k + j) ==> field_end(s.skip(k), j) == field_end(s, k + j) - k && field_text(
            s.skip(k),
            j,
        ) == field_text(s, k + j),
{
    let t = s.skip(k);
    if 0 <= j < t.len() {
        assert(t[j] == s[k + j]);
        if field_end(s, k + j) <= s.len() {
            assert(t.subrange(j + 1, field_end(t, j)) =~= s.subrange(k + j + 1, field_end(s, k + j)));
        }
    }
}

fn read_field(parser: &mut BufferParser) -> (r: Result<String, CustomError>)
    requires
        old(parser).wf(),
    ensures
        final(parser).wf(),
        field_ok(old(parser).rest(), 0) ==> r is Ok && r->Ok_0@ == field_text(old(parser).rest(), 0)
            && final(parser).rest() == old(parser).rest().skip(field_end(old(parser).rest(), 0)),
        !field_ok(old(parser).rest(), 0) ==> r == Err::<String, CustomError>(
            CustomError::SerializedBufferIsInvalid,
        ),
{
    let ghost s = parser.rest();
    let len = parser.extract_u8()?;
    assert(s.skip(1).take(len as int) =~= s.subrange(1, field_end(s, 0)) || len as int > s.len() - 1);
    let text = parser.extract_string(len as usize)?;
    assert(parser.rest() =~= s.skip(field_end(s, 0)));
    Ok(text)
}

/// One field of a wallet record: its UTF-8 length as one byte, then its
/// UTF-8 bytes.
pub open spec fn field_bytes(s: Seq<char>) -> Seq<u8> {
    seq![encode_utf8(s).len() as u8] + encode_utf8(s)
}

/// A field fits a record when its UTF-8 form is at most 255 bytes.
pub open spec fn field_fits(s: Seq<char>) -> bool {
    encode_utf8(s).len() <= 255
}

/// A wallet record: name, public key and private key, each a field.
pub open spec fn wallet_bytes(name: Seq<char>, pubkey: Seq<char>, privkey: Seq<char>) -> Seq<u8> {
    field_bytes(name) + field_bytes(pubkey) + field_bytes(privkey)
}

fn append_field(buffer: &mut Vec<u8>, s: &String)
    requires
        field_fits(s@),
    ensures
        final(buffer)@ == old(buffer)@ + field_bytes(s@),
{
    let bytes = s.as_str().as_bytes();
    let n = bytes.len();
    let len_byte = n as u8;
    buffer.push(len_byte);
    append_bytes(buffer, bytes);
    assert(final(buffer)@ =~= old(buffer)@ + field_bytes(s@));
}

impl Wallet {
    pub fn new(name: String, pubkey: String, privkey: String) -> (r: Self)
        ensures
            r.name@ == name@,
            r.pubkey@ == pubkey@,
            r.privkey@ == privkey@,
    {
        Wallet { name, pubkey, privkey }
    }

    /// Reads a wallet file: records back to back, each three fields of a
    /// length byte and that many UTF-8 bytes.
    pub fn parse_wallets(buffer: Vec<u8>) -> (r: Result<Vec<Self>, CustomError>)
        ensures
            match r {
                Ok(ws) => parse_wallet_file(buffer@) == Some(ws@.map_values(|w: Wallet| w@)),
                Err(e) => e == CustomError::SerializedBufferIsInvalid && parse_wallet_file(
                    buffer@,
                ) is None,
            },
    {
        let ghost b = buffer@;
        let mut parser = BufferParser::new(buffer);
        let mut wallets: Vec<Wallet> = Vec::new();
        while parser.len() > 0
            invariant
                parser.wf(),
                b == buffer@,
                parse_wallet_file(b) == prepend_wallets(
                    wallets@.map_values(|w: Wallet| w@),
                    parse_wallet_file(parser.rest()),
                ),
            decreases parser.rest().len(),
        {
            let ghost s = parser.rest();
            let ghost before = wallets@.map_values(|w: Wallet| w@);
            let name = match read_field(&mut parser) {
                Ok(t) => t,
                Err(e) => return Err(e),
            };
            let ghost e1 = record_mid(s);
            proof {
                lemma_field_shift(s, e1, 0);
            }
            let pubkey = match read_field(&mut parser) {
                Ok(t) => t,
                Err(e) => return Err(e),
            };
            let ghost e2 = record_last(s);
            proof {
                assert(field_end(s, e1) == e2);
                assert(s.skip(e1).skip(e2 - e1) =~= s.skip(e2));
                lemma_field_shift(s, e2, 0);
            }
            let privkey = match read_field(&mut parser) {
                Ok(t) => t,
                Err(e) => return Err(e),
            };
            proof {
                assert(s.skip(e2).skip(record_len(s) - e2) =~= s.skip(record_len(s)));
            }
            let w = Wallet::new(name, pubkey, privkey);
            wallets.push(w);
            proof {
                let after = wallets@.map_values(|w: Wallet| w@);
                assert(after =~= before + seq![w@]);
                assert(parser.rest() == s.skip(record_len(s)));
                match parse_wallet_file(parser.rest()) {
                    Some(t) => {
                        assert(before + (seq![w@] + t) =~= after + t);
                    },
                    None => {},
                }
            }
        }
        assert(parser.rest().len() == 0);
        assert(wallets@.map_values(|w: Wallet| w@) + Seq::empty() =~= wallets@.map_values(
            |w: Wallet| w@,
        ));
        Ok(wallets)
    }

    /// The wallet's record in the wallet file.
    pub fn serialize(&self) -> (r: Vec<u8>)
        requires
            field_fits(self.name@),
            field_fits(self.pubkey@),
            field_fits(self.privkey@),
        ensures
            r@ == wallet_bytes(self.name@, self.pubkey@, self.privkey@),
    {
        let mut buffer: Vec<u8> = Vec::new();
        append_field(&mut buffer, &self.name);
        append_field(&mut buffer, &self.pubkey);
        append_field(&mut buffer, &self.privkey);
        assert(buffer@ =~= wallet_bytes(self.name@, self.pubkey@, self.privkey@));
        buffer
    }
}

} // verus!
