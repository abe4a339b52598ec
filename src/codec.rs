use vstd::prelude::*;
use vstd::utf8::*;

use crate::error::VaultError;

verus! {

/// Length of the XChaCha20 nonce stored in a keyfile.
pub const NONCE_LEN: usize = 24;

/// Unsigned LEB128: seven bits per byte, low bits first, high bit set on
/// every byte but the last.
pub open spec fn varint(n: nat) -> Seq<u8>
    decreases n,
{
    if n < 128 {
        seq![n as u8]
    } else {
        seq![(n % 128 + 128) as u8] + varint(n / 128)
    }
}

/// A length-prefixed run of bytes.
pub open spec fn field(bytes: Seq<u8>) -> Seq<u8> {
    varint(bytes.len()) + bytes
}

/// `s` stands in `b` starting at `pos`.
pub open spec fn stands_at(b: Seq<u8>, pos: int, s: Seq<u8>) -> bool {
    &&& 0 <= pos
    &&& pos + s.len() <= b.len()
    &&& b.subrange(pos, pos + s.len()) == s
}

/// What a keyfile holds.
pub struct KeyfileView {
    pub hashed_password: Seq<char>,
    pub derivation_salt: Seq<char>,
    pub nonce: Seq<u8>,
    pub encrypted_passphrase: Seq<u8>,
}

pub open spec fn valid_record(m: KeyfileView) -> bool {
    m.nonce.len() == NONCE_LEN
}

/// The bytes of a keyfile: its four fields in order, each length-prefixed,
/// strings as UTF-8.
pub open spec fn encode_record(m: KeyfileView) -> Seq<u8> {
    field(encode_utf8(m.hashed_password)) + field(encode_utf8(m.derivation_salt)) + field(m.nonce)
        + field(m.encrypted_passphrase)
}

pub open spec fn is_keyfile_encoding(b: Seq<u8>, m: KeyfileView) -> bool {
    valid_record(m) && encode_record(m) == b
}

pub open spec fn is_keyfile(b: Seq<u8>) -> bool {
    exists|m: KeyfileView| is_keyfile_encoding(b, m)
}

/// The persisted secret record.
pub struct KeyfileRecord {
    pub hashed_password: String,
    pub derivation_salt: String,
    pub nonce: Vec<u8>,
    pub encrypted_master_passphrase: Vec<u8>,
}

impl View for KeyfileRecord {
    type V = KeyfileView;

    open spec fn view(&self) -> KeyfileView {
        KeyfileView {
            hashed_password: self.hashed_password@,
            derivation_salt: self.derivation_salt@,
            nonce: self.nonce@,
            encrypted_passphrase: self.encrypted_master_passphrase@,
        }
    }
}

pub proof fn lemma_varint_first_byte(n: nat)
    ensures
        varint(n).len() >= 1,
        n < 128 ==> varint(n) == seq![n as u8],
        n >= 128 ==> varint(n)[0] >= 128 && varint(n).drop_first() == varint(n / 128),
{
    if n >= 128 {
        assert(varint(n).drop_first() =~= varint(n / 128));
    }
}

/// Two varints that both stand at one place are the same number.
pub proof fn lemma_varint_unique(b: Seq<u8>, pos: int, x: nat, y: nat)
    requires
        stands_at(b, pos, varint(x)),
        stands_at(b, pos, varint(y)),
    ensures
        x == y,
    decreases x,
{
    lemma_varint_first_byte(x);
    lemma_varint_first_byte(y);
    assert(varint(x)[0] == b[pos]);
    assert(varint(y)[0] == b[pos]);
    if x >= 128 && y >= 128 {
        assert(stands_at(b, pos + 1, varint(x / 128))) by {
            assert(b.subrange(pos + 1, pos + 1 + varint(x / 128).len()) =~= varint(x).drop_first());
        }
        assert(stands_at(b, pos + 1, varint(y / 128))) by {
            assert(b.subrange(pos + 1, pos + 1 + varint(y / 128).len()) =~= varint(y).drop_first());
        }
        lemma_varint_unique(b, pos + 1, x / 128, y / 128);
    }
}

/// Two fields that both stand at one place hold the same bytes.
pub proof fn lemma_field_unique(b: Seq<u8>, pos: int, s: Seq<u8>, t: Seq<u8>)
    requires
        stands_at(b, pos, field(s)),
        stands_at(b, pos, field(t)),
    ensures
        s == t,
{
    let vs = varint(s.len());
    let vt = varint(t.len());
    assert(stands_at(b, pos, vs)) by {
        let whole = b.subrange(pos, pos + field(s).len());
        assert(whole == field(s));
        assert(b.subrange(pos, pos + vs.len()) =~= whole.subrange(0, vs.len() as int));
        assert(field(s).subrange(0, vs.len() as int) =~= vs);
    }
    assert(stands_at(b, pos, vt)) by {
        let whole = b.subrange(pos, pos + field(t).len());
        assert(whole == field(t));
        assert(b.subrange(pos, pos + vt.len()) =~= whole.subrange(0, vt.len() as int));
        assert(field(t).subrange(0, vt.len() as int) =~= vt);
    }
    lemma_varint_unique(b, pos, s.len(), t.len());
    assert(s =~= field(s).subrange(vs.len() as int, field(s).len() as int));
    assert(t =~= field(t).subrange(vt.len() as int, field(t).len() as int));
    let ws = b.subrange(pos, pos + field(s).len());
    let wt = b.subrange(pos, pos + field(t).len());
    assert(ws == field(s));
    assert(wt == field(t));
    assert(s =~= b.subrange(pos + vs.len(), pos + field(s).len()));
    assert(t =~= b.subrange(pos + vt.len(), pos + field(t).len()));
}

fn push_varint(out: &mut Vec<u8>, n: u64)
    ensures
        final(out)@ == old(out)@ + varint(n as nat),
    decreases n,
{
    if n < 128 {
        out.push(n as u8);
        assert(final(out)@ =~= old(out)@ + varint(n as nat));
    } else {
        out.push((n % 128 + 128) as u8);
        push_varint(out, n / 128);
        assert(final(out)@ =~= old(out)@ + varint(n as nat));
    }
}

fn push_field(out: &mut Vec<u8>, bytes: &[u8])
    ensures
        final(out)@ == old(out)@ + field(bytes@),
{
    push_varint(out, bytes.len() as u64);
    let ghost start = out@;
    let mut i: usize = 0;
    while i < bytes.len()
        invariant
            i <= bytes@.len(),
            start == old(out)@ + varint(bytes@.len()),
            out@ == start + bytes@.subrange(0, i as int),
        decreases bytes@.len() - i,
    {
        out.push(bytes[i]);
        i = i + 1;
        assert(out@ =~= start + bytes@.subrange(0, i as int));
    }
    assert(bytes@.subrange(0, bytes@.len() as int) =~= bytes@);
    assert(out@ =~= old(out)@ + field(bytes@));
}

/// Serializes a keyfile record.
pub fn encode_keyfile(record: &KeyfileRecord) -> (r: Vec<u8>)
    ensures
        r@ == encode_record(record@),
{
    let mut out: Vec<u8> = Vec::new();
    push_field(&mut out, record.hashed_password.as_str().as_bytes());
    push_field(&mut out, record.derivation_salt.as_str().as_bytes());
    push_field(&mut out, record.nonce.as_slice());
    push_field(&mut out, record.encrypted_master_passphrase.as_slice());
    assert(out@ =~= encode_record(record@));
    out
}


/// Largest value whose varint continues by one more byte without leaving u64.
const VARINT_TAIL_MAX: u64 = 0x01ff_ffff_ffff_ffff;

fn read_varint(b: &Vec<u8>, pos: usize) -> (r: Option<(u64, usize)>)
    requires
        pos <= b@.len(),
    ensures
        r matches Some((v, next)) ==> pos < next <= b@.len() && b@.subrange(pos as int, next as int)
            == varint(v as nat),
        r is None ==> forall|n: nat| n <= u64::MAX ==> !stands_at(b@, pos as int, #[trigger] varint(n)),
    decreases b@.len() - pos,
{
    if pos >= b.len() {
        proof {
            assert forall|n: nat| n <= u64::MAX implies !stands_at(b@, pos as int, #[trigger] varint(n)) by {
                lemma_varint_first_byte(n);
            }
        }
        return None;
    }
    let c = b[pos];
    if c < 128 {
        assert(b@.subrange(pos as int, pos + 1) =~= varint(c as nat));
        return Some((c as u64, pos + 1));
    }
    let rest = read_varint(b, pos + 1);
    match rest {
        None => {
            proof {
                assert forall|n: nat| n <= u64::MAX implies !stands_at(b@, pos as int, #[trigger] varint(n)) by {
                    lemma_varint_first_byte(n);
                    if stands_at(b@, pos as int, varint(n)) {
                        assert(varint(n)[0] == c);
                        assert(n >= 128);
                        assert(b@.subrange(pos + 1, pos + 1 + varint(n / 128).len()) =~= b@.subrange(
                            pos as int,
                            pos + varint(n).len(),
                        ).drop_first());
                        assert(stands_at(b@, pos + 1, varint(n / 128)));
                    }
                }
            }
            None
        },
        Some((m, next)) => {
            if m == 0 || m > VARINT_TAIL_MAX {
                proof {
                    assert(stands_at(b@, pos + 1, varint(m as nat)));
                    assert forall|n: nat| n <= u64::MAX implies !stands_at(b@, pos as int, #[trigger] varint(n)) by {
                        lemma_varint_first_byte(n);
                        if stands_at(b@, pos as int, varint(n)) {
                            assert(varint(n)[0] == c);
                            assert(n >= 128);
                            assert(b@.subrange(pos + 1, pos + 1 + varint(n / 128).len()) =~= b@.subrange(
                                pos as int,
                                pos + varint(n).len(),
                            ).drop_first());
                            lemma_varint_unique(b@, pos + 1, m as nat, n / 128);
                        }
                    }
                }
                None
            } else {
                let low = (c - 128) as u64;
                let v = low + 128 * m;
                assert(v % 128 == low && v / 128 == m && v >= 128) by (nonlinear_arith)
                    requires
                        v == low + 128 * m,
                        low < 128,
                        m >= 1,
                ;
                proof {
                    lemma_varint_first_byte(v as nat);
                    assert(b@.subrange(pos as int, next as int) =~= seq![c] + b@.subrange(
                        pos + 1,
                        next as int,
                    ));
                    assert(varint(v as nat) =~= seq![c] + varint(m as nat));
                }
                Some((v, next))
            }
        },
    }
}

fn read_field(b: &Vec<u8>, pos: usize) -> (r: Option<(Vec<u8>, usize)>)
    requires
        pos <= b@.len(),
    ensures
        r matches Some((f, end)) ==> pos <= end <= b@.len() && b@.subrange(pos as int, end as int)
            == field(f@),
        r is None ==> forall|s: Seq<u8>| !stands_at(b@, pos as int, #[trigger] field(s)),
{
    let total = b.len();
    let head = read_varint(b, pos);
    match head {
        None => {
            proof {
                assert forall|s: Seq<u8>| !stands_at(b@, pos as int, #[trigger] field(s)) by {
                    if stands_at(b@, pos as int, field(s)) {
                        let vs = varint(s.len());
                        assert(b@.subrange(pos as int, pos + vs.len()) =~= b@.subrange(
                            pos as int,
                            pos + field(s).len(),
                        ).subrange(0, vs.len() as int));
                        assert(field(s).subrange(0, vs.len() as int) =~= vs);
                        assert(stands_at(b@, pos as int, vs));
                        assert(s.len() <= total);
                        assert(!stands_at(b@, pos as int, varint(s.len())));
                    }
                }
            }
            None
        },
        Some((len, next)) => {
            let room = b.len() - next;
            if len > room as u64 {
                proof {
                    assert forall|s: Seq<u8>| !stands_at(b@, pos as int, #[trigger] field(s)) by {
                        if stands_at(b@, pos as int, field(s)) {
                            let vs = varint(s.len());
                            assert(b@.subrange(pos as int, pos + vs.len()) =~= b@.subrange(
                                pos as int,
                                pos + field(s).len(),
                            ).subrange(0, vs.len() as int));
                            assert(field(s).subrange(0, vs.len() as int) =~= vs);
                            assert(stands_at(b@, pos as int, vs));
                            assert(stands_at(b@, pos as int, varint(len as nat)));
                            lemma_varint_unique(b@, pos as int, len as nat, s.len());
                        }
                    }
                }
                return None;
            }
            let end = next + len as usize;
            let mut out: Vec<u8> = Vec::new();
            let mut i: usize = next;
            while i < end
                invariant
                    next <= i <= end <= b@.len(),
                    out@ == b@.subrange(next as int, i as int),
                decreases end - i,
            {
                out.push(b[i]);
                i = i + 1;
                assert(out@ =~= b@.subrange(next as int, i as int));
            }
            assert(b@.subrange(pos as int, end as int) =~= b@.subrange(pos as int, next as int)
                + out@);
            Some((out, end))
        },
    }
}

/// Relies on std::str::from_utf8: it accepts exactly the valid UTF-8
/// sequences and yields the text they encode.
#[verifier::external_body]
pub(crate) fn text_from_utf8(b: &[u8]) -> (r: Option<String>)
    ensures
        r is Some <==> valid_utf8(b@),
        r matches Some(s) ==> s@ == decode_utf8(b@),
{
    match std::str::from_utf8(b) {
        Ok(s) => Some(s.to_string()),
        Err(_) => None,
    }
}

/// A field at `pos` followed by the rest of the bytes.
proof fn lemma_field_then(b: Seq<u8>, pos: int, s: Seq<u8>, rest: Seq<u8>)
    requires
        0 <= pos <= b.len(),
        b.subrange(pos, b.len() as int) == field(s) + rest,
    ensures
        stands_at(b, pos, field(s)),
        b.subrange(pos + field(s).len(), b.len() as int) == rest,
{
    let tail = b.subrange(pos, b.len() as int);
    let k = field(s).len() as int;
    assert(b.subrange(pos, pos + k) =~= tail.subrange(0, k));
    assert(tail.subrange(0, k) =~= field(s));
    assert(b.subrange(pos + k, b.len() as int) =~= tail.subrange(k, tail.len() as int));
    assert(tail.subrange(k, tail.len() as int) =~= rest);
}

/// Any field found at `pos` is the one that the bytes there hold.
proof fn lemma_field_found(b: Seq<u8>, pos: int, s: Seq<u8>, rest: Seq<u8>, f: Seq<u8>, end: int)
    requires
        0 <= pos <= end <= b.len(),
        b.subrange(pos, b.len() as int) == field(s) + rest,
        b.subrange(pos, end) == field(f),
    ensures
        f == s,
        end == pos + field(s).len(),
        b.subrange(end, b.len() as int) == rest,
{
    lemma_field_then(b, pos, s, rest);
    assert(stands_at(b, pos, field(f)));
    lemma_field_unique(b, pos, f, s);
}

/// A keyfile's bytes determine its record: decoding an encoding gives back
/// the record that was encoded, and no other.
pub proof fn lemma_keyfile_encoding_unique(b: Seq<u8>, m1: KeyfileView, m2: KeyfileView)
    requires
        is_keyfile_encoding(b, m1),
        is_keyfile_encoding(b, m2),
    ensures
        m1 == m2,
{
    let h1 = encode_utf8(m1.hashed_password);
    let h2 = encode_utf8(m2.hashed_password);
    let s1 = encode_utf8(m1.derivation_salt);
    let s2 = encode_utf8(m2.derivation_salt);
    let t1 = field(m1.nonce) + field(m1.encrypted_passphrase);
    let t2 = field(m2.nonce) + field(m2.encrypted_passphrase);
    assert(b.subrange(0, b.len() as int) =~= field(h1) + (field(s1) + t1));
    assert(b.subrange(0, b.len() as int) =~= field(h2) + (field(s2) + t2));
    lemma_field_then(b, 0, h1, field(s1) + t1);
    lemma_field_then(b, 0, h2, field(s2) + t2);
    lemma_field_unique(b, 0, h1, h2);
    let pos1 = field(h1).len() as int;
    lemma_field_then(b, pos1, s1, t1);
    lemma_field_then(b, pos1, s2, t2);
    lemma_field_unique(b, pos1, s1, s2);
    let pos2 = pos1 + field(s1).len();
    lemma_field_then(b, pos2, m1.nonce, field(m1.encrypted_passphrase));
    lemma_field_then(b, pos2, m2.nonce, field(m2.encrypted_passphrase));
    lemma_field_unique(b, pos2, m1.nonce, m2.nonce);
    let pos3 = pos2 + field(m1.nonce).len();
    assert(field(m1.encrypted_passphrase) =~= field(m1.encrypted_passphrase) + Seq::<u8>::empty());
    assert(field(m2.encrypted_passphrase) =~= field(m2.encrypted_passphrase) + Seq::<u8>::empty());
    lemma_field_then(b, pos3, m1.encrypted_passphrase, Seq::<u8>::empty());
    lemma_field_then(b, pos3, m2.encrypted_passphrase, Seq::<u8>::empty());
    lemma_field_unique(b, pos3, m1.encrypted_passphrase, m2.encrypted_passphrase);
    encode_utf8_decode_utf8(m1.hashed_password);
    encode_utf8_decode_utf8(m2.hashed_password);
    encode_utf8_decode_utf8(m1.derivation_salt);
    encode_utf8_decode_utf8(m2.derivation_salt);
}

proof fn lemma_stands_in_longer(t: Seq<u8>, full: Seq<u8>, pos: int, s: Seq<u8>)
    requires
        t.len() <= full.len(),
        t == full.subrange(0, t.len() as int),
        stands_at(t, pos, s),
    ensures
        stands_at(full, pos, s),
{
    assert(full.subrange(pos, pos + s.len()) =~= t.subrange(pos, pos + s.len()));
}

/// The four fields of a record, found at their places in `b`.
proof fn lemma_fields_of(b: Seq<u8>, m: KeyfileView)
    requires
        b.len() >= encode_record(m).len(),
        b.subrange(0, encode_record(m).len() as int) == encode_record(m),
    ensures
        stands_at(b, 0, field(encode_utf8(m.hashed_password))),
        stands_at(
            b,
            field(encode_utf8(m.hashed_password)).len() as int,
            field(encode_utf8(m.derivation_salt)),
        ),
        stands_at(
            b,
            (field(encode_utf8(m.hashed_password)).len() + field(encode_utf8(m.derivation_salt)).len()) as int,
            field(m.nonce),
        ),
        stands_at(
            b,
            (field(encode_utf8(m.hashed_password)).len() + field(encode_utf8(m.derivation_salt)).len()
                + field(m.nonce).len()) as int,
            field(m.encrypted_passphrase),
        ),
{
    let e = encode_record(m);
    let a = field(encode_utf8(m.hashed_password));
    let c = field(encode_utf8(m.derivation_salt));
    let d = field(m.nonce);
    let f = field(m.encrypted_passphrase);
    assert(b.subrange(0, a.len() as int) =~= e.subrange(0, a.len() as int));
    assert(e.subrange(0, a.len() as int) =~= a);
    let pos1 = a.len() as int;
    assert(b.subrange(pos1, pos1 + c.len()) =~= e.subrange(pos1, pos1 + c.len()));
    assert(e.subrange(pos1, pos1 + c.len()) =~= c);
    let pos2 = pos1 + c.len();
    assert(b.subrange(pos2, pos2 + d.len()) =~= e.subrange(pos2, pos2 + d.len()));
    assert(e.subrange(pos2, pos2 + d.len()) =~= d);
    let pos3 = pos2 + d.len();
    assert(b.subrange(pos3, pos3 + f.len()) =~= e.subrange(pos3, pos3 + f.len()));
    assert(e.subrange(pos3, pos3 + f.len()) =~= f);
}

/// Cutting a keyfile short always leaves bytes that decode as corrupt.
pub proof fn lemma_truncated_keyfile_is_corrupt(m: KeyfileView, n: int)
    requires
        valid_record(m),
        0 <= n < encode_record(m).len(),
    ensures
        !is_keyfile(encode_record(m).subrange(0, n)),
{
    let full = encode_record(m);
    let t = full.subrange(0, n);
    if is_keyfile(t) {
        let m2 = choose|m2: KeyfileView| is_keyfile_encoding(t, m2);
        assert(full.subrange(0, full.len() as int) =~= full);
        lemma_fields_of(full, m);
        assert(t.subrange(0, t.len() as int) =~= t);
        lemma_fields_of(t, m2);
        let h1 = encode_utf8(m.hashed_password);
        let h2 = encode_utf8(m2.hashed_password);
        let s1 = encode_utf8(m.derivation_salt);
        let s2 = encode_utf8(m2.derivation_salt);
        assert(t =~= full.subrange(0, t.len() as int));
        lemma_stands_in_longer(t, full, 0, field(h2));
        lemma_field_unique(full, 0, h1, h2);
        let pos1 = field(h1).len() as int;
        lemma_stands_in_longer(t, full, pos1, field(s2));
        lemma_field_unique(full, pos1, s1, s2);
        let pos2 = pos1 + field(s1).len();
        lemma_stands_in_longer(t, full, pos2, field(m2.nonce));
        lemma_field_unique(full, pos2, m.nonce, m2.nonce);
        let pos3 = pos2 + field(m.nonce).len();
        lemma_stands_in_longer(t, full, pos3, field(m2.encrypted_passphrase));
        lemma_field_unique(full, pos3, m.encrypted_passphrase, m2.encrypted_passphrase);
        assert(encode_record(m2).len() == full.len());
    }
}

/// Parses keyfile bytes; anything but the exact encoding of a record is
/// reported as a corrupt keyfile.
pub fn decode_keyfile(b: &Vec<u8>) -> (r: Result<KeyfileRecord, VaultError>)
    ensures
        r matches Ok(rec) ==> is_keyfile_encoding(b@, rec@),
        r is Err ==> r == Err::<KeyfileRecord, VaultError>(VaultError::CorruptKeyfile) && !is_keyfile(
            b@,
        ),
{
    let ghost bs = b@;
    let f1 = read_field(b, 0);
    let f2 = match f1 {
        Some((_, e1)) => read_field(b, e1),
        None => None,
    };
    let f3 = match f2 {
        Some((_, e2)) => read_field(b, e2),
        None => None,
    };
    let f4 = match f3 {
        Some((_, e3)) => read_field(b, e3),
        None => None,
    };
    let ghost parsed = f1 is Some && f2 is Some && f3 is Some && f4 is Some;
    proof {
        if is_keyfile(bs) {
            let m = choose|m: KeyfileView| is_keyfile_encoding(bs, m);
            let h = encode_utf8(m.hashed_password);
            let s = encode_utf8(m.derivation_salt);
            let rest1 = field(s) + field(m.nonce) + field(m.encrypted_passphrase);
            let rest2 = field(m.nonce) + field(m.encrypted_passphrase);
            let rest3 = field(m.encrypted_passphrase);
            assert(bs.subrange(0, bs.len() as int) =~= field(h) + rest1);
            lemma_field_then(bs, 0, h, rest1);
            let (g1, e1) = f1->Some_0;
            lemma_field_found(bs, 0, h, rest1, g1@, e1 as int);
            assert(rest1 =~= field(s) + rest2);
            lemma_field_then(bs, e1 as int, s, rest2);
            let (g2, e2) = f2->Some_0;
            lemma_field_found(bs, e1 as int, s, rest2, g2@, e2 as int);
            lemma_field_then(bs, e2 as int, m.nonce, rest3);
            let (g3, e3) = f3->Some_0;
            lemma_field_found(bs, e2 as int, m.nonce, rest3, g3@, e3 as int);
            assert(rest3 =~= field(m.encrypted_passphrase) + Seq::<u8>::empty());
            lemma_field_then(bs, e3 as int, m.encrypted_passphrase, Seq::<u8>::empty());
            let (g4, e4) = f4->Some_0;
            lemma_field_found(bs, e3 as int, m.encrypted_passphrase, Seq::<u8>::empty(), g4@, e4 as int);
            encode_utf8_valid_utf8(m.hashed_password);
            encode_utf8_valid_utf8(m.derivation_salt);
            assert(parsed);
        }
    }
    match (f1, f2, f3, f4) {
        (Some((hash_bytes, e1)), Some((salt_bytes, e2)), Some((nonce, e3)), Some((sealed, e4))) => {
            if e4 != b.len() || nonce.len() != NONCE_LEN {
                return Err(VaultError::CorruptKeyfile);
            }
            let hash = text_from_utf8(hash_bytes.as_slice());
            let salt = text_from_utf8(salt_bytes.as_slice());
            match (hash, salt) {
                (Some(hashed_password), Some(derivation_salt)) => {
                    let rec = KeyfileRecord {
                        hashed_password,
                        derivation_salt,
                        nonce,
                        encrypted_master_passphrase: sealed,
                    };
                    proof {
                        decode_utf8_encode_utf8(hash_bytes@);
                        decode_utf8_encode_utf8(salt_bytes@);
                        assert(bs =~= bs.subrange(0, e1 as int) + bs.subrange(e1 as int, e2 as int)
                            + bs.subrange(e2 as int, e3 as int) + bs.subrange(e3 as int, e4 as int));
                        assert(encode_record(rec@) =~= bs);
                    }
                    Ok(rec)
                },
                _ => Err(VaultError::CorruptKeyfile),
            }
        },
        _ => Err(VaultError::CorruptKeyfile),
    }
}

} // verus!
