//! The format of encrypted data: the salt and the nonce, then each sealed
//! segment behind its length as four big-endian bytes.
use vstd::prelude::*;

use crate::error::Error;
use crate::secret::cipher::{aes256gcm_open, aes256gcm_seal, pbkdf2_sha256, slice_to_vec, AesCipher, NONCE_LENGTH, P_MAX, SALT_LENGTH};
use vstd::string::StringSliceAdditionalSpecFns;

verus! {

/// Bytes of the head of encrypted data.
pub const HEAD_LENGTH: usize = 32;

/// The four big-endian bytes of `n`.
pub open spec fn be32(n: nat) -> Seq<u8> {
    seq![(n / 16777216 % 256) as u8, (n / 65536 % 256) as u8, (n / 256 % 256) as u8, (n % 256) as u8]
}

/// The number that four big-endian bytes hold.
pub open spec fn be32_value(b: Seq<u8>) -> nat {
    (b[0] as nat) * 16777216 + (b[1] as nat) * 65536 + (b[2] as nat) * 256 + (b[3] as nat)
}

/// The segments, each behind its length.
pub open spec fn frames(segs: Seq<Seq<u8>>) -> Seq<u8>
    decreases segs.len(),
{
    if segs.len() == 0 {
        Seq::empty()
    } else {
        be32(segs[0].len()) + segs[0] + frames(segs.skip(1))
    }
}

/// The segments that framed data holds: fewer than four bytes left end it; a
/// segment shorter than its length makes it invalid.
pub open spec fn parse_frames(d: Seq<u8>) -> Option<Seq<Seq<u8>>>
    decreases d.len(),
{
    if d.len() < 4 {
        Some(Seq::empty())
    } else {
        let n: int = be32_value(d.take(4)) as int;
        if d.len() - 4 < n {
            None
        } else {
            match parse_frames(d.skip(4 + n)) {
                Some(rest) => Some(seq![d.subrange(4, 4 + n)] + rest),
                None => None,
            }
        }
    }
}

/// The segments concatenated.
pub open spec fn concat_all(segs: Seq<Seq<u8>>) -> Seq<u8>
    decreases segs.len(),
{
    if segs.len() == 0 { Seq::empty() } else { segs[0] + concat_all(segs.skip(1)) }
}

/// `d` cut into chunks of `size` bytes, the last one shorter when `size`
/// does not divide the length; nothing for empty data or a zero size.
pub open spec fn chunks_of(d: Seq<u8>, size: nat) -> Seq<Seq<u8>>
    decreases d.len(),
{
    if size == 0 || d.len() == 0 {
        Seq::empty()
    } else if d.len() <= size {
        seq![d]
    } else {
        seq![d.take(size as int)] + chunks_of(d.skip(size as int), size)
    }
}

/// The chunks of data put together again are the data.
proof fn lemma_chunks_concat(d: Seq<u8>, size: nat)
    requires
        size > 0,
    ensures
        concat_all(chunks_of(d, size)) == d,
    decreases d.len(),
{
    if d.len() == 0 {
        assert(concat_all(chunks_of(d, size)) =~= d);
    } else if d.len() <= size {
        let c = chunks_of(d, size);
        assert(c.skip(1) =~= Seq::<Seq<u8>>::empty());
        assert(concat_all(c.skip(1)) =~= Seq::<u8>::empty());
        assert(concat_all(c) =~= d);
    } else {
        lemma_chunks_concat(d.skip(size as int), size);
        let c = chunks_of(d, size);
        assert(c.skip(1) =~= chunks_of(d.skip(size as int), size));
        assert(d.take(size as int) + d.skip(size as int) =~= d);
    }
}

/// Framed segments that each open to their plaintext open, in order, to the
/// plaintexts put together.
proof fn lemma_open_frames(key: Seq<u8>, nonce: Seq<u8>, segs: Seq<Seq<u8>>, plains: Seq<Seq<u8>>)
    requires
        segs.len() == plains.len(),
        forall|k: int| 0 <= k < segs.len() ==> (#[trigger] segs[k]).len() <= u32::MAX,
        forall|k: int| 0 <= k < segs.len() ==> aes256gcm_open(key, nonce, #[trigger] segs[k]) == Some(plains[k]),
    ensures
        open_frames(key, nonce, frames(segs)) == Ok::<Seq<u8>, Error>(concat_all(plains)),
    decreases segs.len(),
{
    if segs.len() == 0 {
        assert(frames(segs) =~= Seq::<u8>::empty());
        assert(concat_all(plains) =~= Seq::<u8>::empty());
    } else {
        let rest = segs.skip(1);
        let prest = plains.skip(1);
        assert forall|k: int| 0 <= k < rest.len() implies (#[trigger] rest[k]).len() <= u32::MAX by {
            assert(rest[k] == segs[k + 1]);
        }
        assert forall|k: int| 0 <= k < rest.len() implies aes256gcm_open(key, nonce, #[trigger] rest[k]) == Some(prest[k]) by {
            assert(rest[k] == segs[k + 1]);
            assert(prest[k] == plains[k + 1]);
        }
        lemma_open_frames(key, nonce, rest, prest);
        let s0 = segs[0];
        assert(aes256gcm_open(key, nonce, segs[0]) == Some(plains[0]));
        lemma_be32(s0.len());
        let d = frames(segs);
        assert(d == be32(s0.len()) + s0 + frames(rest));
        assert(d.take(4) =~= be32(s0.len()));
        assert(d.subrange(4, 4 + s0.len() as int) =~= s0);
        assert(d.skip(4 + s0.len() as int) =~= frames(rest));
    }
}

/// The bytes of each chunk.
pub open spec fn chunk_views(v: Seq<Vec<u8>>) -> Seq<Seq<u8>> {
    v.map_values(|c: Vec<u8>| c@)
}

/// Each chunk sealed with the key and nonce.
pub open spec fn seal_all(key: Seq<u8>, nonce: Seq<u8>, chunks: Seq<Seq<u8>>) -> Seq<Seq<u8>> {
    chunks.map_values(|c: Seq<u8>| aes256gcm_seal(key, nonce, c))
}

/// Every chunk, once sealed (16 bytes longer), fits a four-byte length.
pub open spec fn chunks_fit(chunks: Seq<Seq<u8>>) -> bool {
    forall|k: int| 0 <= k < chunks.len() ==> (#[trigger] chunks[k]).len() + 16 <= u32::MAX
}

/// The segments opened in order and concatenated; the first that does not
/// open, or a segment cut short, is an error.
pub open spec fn open_frames(key: Seq<u8>, nonce: Seq<u8>, d: Seq<u8>) -> Result<Seq<u8>, Error>
    decreases d.len(),
{
    if d.len() < 4 {
        Ok(Seq::empty())
    } else {
        let n: int = be32_value(d.take(4)) as int;
        if d.len() - 4 < n {
            Err(Error::TruncatedSegment)
        } else {
            match aes256gcm_open(key, nonce, d.subrange(4, 4 + n)) {
                None => Err(Error::DecryptFailed),
                Some(p) => match open_frames(key, nonce, d.skip(4 + n)) {
                    Ok(rest) => Ok(p + rest),
                    Err(e) => Err(e),
                },
            }
        }
    }
}

/// What decrypting `data` with `password` gives: the head must be there,
/// and at least one segment after it.
pub open spec fn decrypt_result(password: Seq<u8>, rounds: u32, data: Seq<u8>) -> Result<Seq<u8>, Error> {
    if data.len() < HEAD_LENGTH {
        Err(Error::InvalidSecretHead)
    } else {
        let key = pbkdf2_sha256(password, data.take(SALT_LENGTH as int), rounds);
        let body = data.skip(HEAD_LENGTH as int);
        if body.len() < 4 {
            Err(Error::EmptySecretSource)
        } else {
            open_frames(key, data.subrange(SALT_LENGTH as int, HEAD_LENGTH as int), body)
        }
    }
}

proof fn lemma_be32(n: nat)
    requires
        n <= u32::MAX,
    ensures
        be32(n).len() == 4,
        be32_value(be32(n)) == n,
{
    assert(be32_value(be32(n)) == n) by (nonlinear_arith)
        requires
            n <= 4294967295,
            be32(n) == seq![(n / 16777216 % 256) as u8, (n / 65536 % 256) as u8, (n / 256 % 256) as u8, (n % 256) as u8],
    {
        assert(n / 16777216 < 256);
    }
}

/// Framed segments are read back as they were: the format loses nothing.
pub proof fn law_frames_parse_back(segs: Seq<Seq<u8>>)
    requires
        forall|k: int| 0 <= k < segs.len() ==> (#[trigger] segs[k]).len() <= u32::MAX,
    ensures
        parse_frames(frames(segs)) == Some(segs),
    decreases segs.len(),
{
    if segs.len() == 0 {
        assert(frames(segs) =~= Seq::<u8>::empty());
        assert(parse_frames(frames(segs)) == Some(Seq::<Seq<u8>>::empty()));
        assert(segs =~= Seq::<Seq<u8>>::empty());
    } else {
        let rest = segs.skip(1);
        assert forall|k: int| 0 <= k < rest.len() implies (#[trigger] rest[k]).len() <= u32::MAX by {
            assert(rest[k] == segs[k + 1]);
        }
        law_frames_parse_back(rest);
        let s0 = segs[0];
        lemma_be32(s0.len());
        let d = frames(segs);
        assert(d == be32(s0.len()) + s0 + frames(rest));
        assert(d.take(4) =~= be32(s0.len()));
        assert(d.subrange(4, 4 + s0.len() as int) =~= s0);
        assert(d.skip(4 + s0.len() as int) =~= frames(rest));
        assert(seq![s0] + rest =~= segs);
    }
}

fn push_be32(out: &mut Vec<u8>, n: u32)
    ensures
        final(out)@ == old(out)@ + be32(n as nat),
{
    out.push((n / 16777216) as u8);
    out.push((n / 65536 % 256) as u8);
    out.push((n / 256 % 256) as u8);
    out.push((n % 256) as u8);
    assert(final(out)@ =~= old(out)@ + be32(n as nat)) by {
        assert(n / 16777216 < 256) by (nonlinear_arith) requires n <= 4294967295u32;
    }
}

fn read_be32(d: &[u8], p: usize) -> (r: u64)
    requires
        p + 4 <= d@.len(),
    ensures
        r as nat == be32_value(d@.subrange(p as int, p + 4)),
{
    let ghost b = d@.subrange(p as int, p + 4);
    assert(b[0] == d@[p as int] && b[1] == d@[p + 1] && b[2] == d@[p + 2] && b[3] == d@[p + 3]);
    (d[p] as u64) * 16777216 + (d[p + 1] as u64) * 65536 + (d[p + 2] as u64) * 256 + (d[p + 3] as u64)
}

proof fn lemma_frames_push(segs: Seq<Seq<u8>>, s: Seq<u8>)
    ensures
        frames(segs.push(s)) == frames(segs) + be32(s.len()) + s,
    decreases segs.len(),
{
    if segs.len() == 0 {
        let t = segs.push(s);
        assert(t[0] == s);
        assert(t.skip(1) =~= Seq::<Seq<u8>>::empty());
        assert(frames(t.skip(1)) =~= Seq::<u8>::empty());
        assert(frames(t) =~= be32(s.len()) + s + Seq::<u8>::empty());
        assert(frames(segs) =~= Seq::<u8>::empty());
        assert(frames(segs.push(s)) =~= frames(segs) + be32(s.len()) + s);
    } else {
        lemma_frames_push(segs.skip(1), s);
        assert(segs.push(s).skip(1) =~= segs.skip(1).push(s));
        assert(segs.push(s)[0] == segs[0]);
        assert(frames(segs.push(s)) =~= frames(segs) + be32(s.len()) + s);
    }
}

/// The encrypted form of `chunks`: the cipher's head, then each chunk sealed
/// and framed. Nothing to encrypt, a chunk too long to seal or a sealed
/// chunk too long to frame is an error.
pub fn encrypt_chunks(cipher: &AesCipher, chunks: &Vec<Vec<u8>>) -> (r: Result<Vec<u8>, Error>)
    requires
        cipher.wf(),
    ensures
        chunks@.len() == 0 ==> r == Err::<Vec<u8>, Error>(Error::EmptySecretSource),
        chunks@.len() > 0 && chunks_fit(chunk_views(chunks@)) ==> (r matches Ok(out)
            && out@ == cipher.salt_data@ + cipher.nonce_data@
                + frames(seal_all(cipher.key(), cipher.nonce_data@, chunk_views(chunks@)))
            && forall|k: int| 0 <= k < chunks@.len() ==> aes256gcm_open(cipher.key(), cipher.nonce_data@,
                #[trigger] seal_all(cipher.key(), cipher.nonce_data@, chunk_views(chunks@))[k])
                == Some(chunks@[k]@)
                && seal_all(cipher.key(), cipher.nonce_data@, chunk_views(chunks@))[k].len() == chunks@[k]@.len() + 16),
        chunks@.len() > 0 && !chunks_fit(chunk_views(chunks@)) ==> r is Err,
{
    let ghost cs = chunk_views(chunks@);
    if chunks.len() == 0 {
        return Err(Error::EmptySecretSource);
    }
    let mut out = cipher.head();
    let ghost head = out@;
    let mut i: usize = 0;
    assert(seal_all(cipher.key(), cipher.nonce_data@, cs.take(0)) =~= Seq::<Seq<u8>>::empty());
    assert(out@ =~= head + frames(seal_all(cipher.key(), cipher.nonce_data@, cs.take(0))));
    while i < chunks.len()
        invariant
            cipher.wf(),
            cs == chunk_views(chunks@),
            head == cipher.salt_data@ + cipher.nonce_data@,
            i <= chunks.len(),
            out@ == head + frames(seal_all(cipher.key(), cipher.nonce_data@, cs.take(i as int))),
            forall|k: int| 0 <= k < i ==> (#[trigger] cs[k]).len() + 16 <= u32::MAX,
            forall|k: int| 0 <= k < i ==> aes256gcm_open(cipher.key(), cipher.nonce_data@,
                aes256gcm_seal(cipher.key(), cipher.nonce_data@, #[trigger] cs[k])) == Some(cs[k])
                && aes256gcm_seal(cipher.key(), cipher.nonce_data@, cs[k]).len() == cs[k].len() + 16,
        decreases chunks.len() - i,
    {
        let c = chunks[i].as_slice();
        if c.len() as u64 > P_MAX {
            let r = cipher.encrypt(c);
            proof {
                assert(cs[i as int] == chunks@[i as int]@);
                assert(!chunks_fit(cs)) by { assert(!(cs[i as int].len() + 16 <= u32::MAX)); }
            }
            return r;
        }
        let sealed = match cipher.encrypt(c) {
            Ok(s) => s,
            Err(e) => return Err(e),
        };
        if sealed.len() > 4294967295 {
            proof {
                assert(cs[i as int] == chunks@[i as int]@);
                assert(!chunks_fit(cs)) by { assert(!(cs[i as int].len() + 16 <= u32::MAX)); }
            }
            return Err(Error::SegmentTooLarge(sealed.len() as u64));
        }
        let ghost before = out@;
        push_be32(&mut out, sealed.len() as u32);
        let mut j: usize = 0;
        let ghost mid = out@;
        while j < sealed.len()
            invariant
                j <= sealed@.len(),
                out@ == mid + sealed@.take(j as int),
            decreases sealed.len() - j,
        {
            out.push(sealed[j]);
            j += 1;
            assert(out@ =~= mid + sealed@.take(j as int));
        }
        proof {
            assert(sealed@.take(sealed@.len() as int) =~= sealed@);
            assert(cs[i as int] == chunks@[i as int]@);
            let sa = seal_all(cipher.key(), cipher.nonce_data@, cs.take(i as int));
            assert(seal_all(cipher.key(), cipher.nonce_data@, cs.take(i + 1)) =~= sa.push(sealed@));
            lemma_frames_push(sa, sealed@);
            assert(out@ =~= head + frames(seal_all(cipher.key(), cipher.nonce_data@, cs.take(i + 1))));
        }
        i += 1;
    }
    assert(cs.take(chunks.len() as int) =~= cs);
    assert forall|k: int| 0 <= k < chunks@.len() implies aes256gcm_open(cipher.key(), cipher.nonce_data@,
        #[trigger] seal_all(cipher.key(), cipher.nonce_data@, cs)[k]) == Some(chunks@[k]@)
        && seal_all(cipher.key(), cipher.nonce_data@, cs)[k].len() == chunks@[k]@.len() + 16 by {
        assert(cs[k] == chunks@[k]@);
    }
    Ok(out)
}

/// The plaintext that `data`, encrypted with `password`, holds: the head gives
/// the salt (and with the password, the key) and the nonce; the segments that
/// follow are opened in order. Data encrypted with this password from chunks
/// that fit gives back the chunks.
pub fn decrypt(password: &str, data: &[u8], rounds: u32) -> (r: Result<Vec<u8>, Error>)
    ensures
        match (r, decrypt_result(password.spec_bytes(), rounds, data@)) {
            (Ok(x), Ok(y)) => x@ == y,
            (Err(e), Err(f)) => e == f,
            _ => false,
        },
{
    if data.len() < HEAD_LENGTH {
        return Err(Error::InvalidSecretHead);
    }
    let head = slice_to_vec(data, 0, HEAD_LENGTH);
    let cipher = match AesCipher::read(head.as_slice(), password, rounds) {
        Ok(c) => c,
        Err(e) => return Err(e),
    };
    let ghost key = cipher.key();
    let ghost nonce = cipher.nonce_data@;
    let ghost body = data@.skip(HEAD_LENGTH as int);
    assert(cipher.salt_data@ == data@.take(SALT_LENGTH as int));
    assert(nonce == data@.subrange(SALT_LENGTH as int, HEAD_LENGTH as int));
    if data.len() - HEAD_LENGTH < 4 {
        return Err(Error::EmptySecretSource);
    }
    let mut out: Vec<u8> = Vec::new();
    let mut p: usize = HEAD_LENGTH;
    assert(data@.skip(p as int) =~= body);
    assert(out@ + Seq::<u8>::empty() =~= out@);
    while data.len() - p >= 4
        invariant
            cipher.wf(),
            key == cipher.key(),
            nonce == cipher.nonce_data@,
            body == data@.skip(HEAD_LENGTH as int),
            body.len() >= 4,
            key == pbkdf2_sha256(password.spec_bytes(), data@.take(SALT_LENGTH as int), rounds),
            nonce == data@.subrange(SALT_LENGTH as int, HEAD_LENGTH as int),
            HEAD_LENGTH <= p <= data@.len(),
            open_frames(key, nonce, body) == match open_frames(key, nonce, data@.skip(p as int)) {
                Ok(rest) => Ok::<Seq<u8>, Error>(out@ + rest),
                Err(e) => Err(e),
            },
        decreases data.len() - p,
    {
        let ghost d = data@.skip(p as int);
        let n = read_be32(data, p);
        assert(d.take(4) =~= data@.subrange(p as int, p + 4));
        if ((data.len() - p - 4) as u64) < n {
            assert(open_frames(key, nonce, d) == Err::<Seq<u8>, Error>(Error::TruncatedSegment));
            return Err(Error::TruncatedSegment);
        }
        let start = p + 4;
        let end = start + n as usize;
        let seg = slice_to_vec(data, start, end);
        assert(seg@ =~= d.subrange(4, 4 + n as int));
        let plain = match cipher.decrypt(seg.as_slice()) {
            Ok(x) => x,
            Err(e) => {
                assert(open_frames(key, nonce, d) == Err::<Seq<u8>, Error>(e));
                return Err(e);
            },
        };
        let ghost before = out@;
        let mut j: usize = 0;
        while j < plain.len()
            invariant
                j <= plain@.len(),
                out@ == before + plain@.take(j as int),
            decreases plain.len() - j,
        {
            out.push(plain[j]);
            j += 1;
            assert(out@ =~= before + plain@.take(j as int));
        }
        proof {
            assert(plain@.take(plain@.len() as int) =~= plain@);
            assert(d.skip(4 + n as int) =~= data@.skip(end as int));
            match open_frames(key, nonce, data@.skip(end as int)) {
                Ok(rest) => {
                    assert(before + (plain@ + rest) =~= out@ + rest);
                },
                Err(e) => {},
            }
        }
        p = end;
    }
    proof {
        assert(data@.skip(p as int).len() < 4);
        assert(out@ + Seq::<u8>::empty() =~= out@);
    }
    Ok(out)
}


/// `data` cut into chunks of `size` bytes, as they are read from a file
/// `size` bytes at a time.
pub fn split_chunks(data: &[u8], size: usize) -> (r: Vec<Vec<u8>>)
    ensures
        chunk_views(r@) == chunks_of(data@, size as nat),
{
    let mut out: Vec<Vec<u8>> = Vec::new();
    if size == 0 {
        assert(chunk_views(out@) =~= chunks_of(data@, size as nat));
        return out;
    }
    let mut p: usize = 0;
    assert(data@.skip(0) =~= data@);
    assert(chunk_views(out@) + chunks_of(data@.skip(0), size as nat) =~= chunks_of(data@, size as nat));
    while p < data.len()
        invariant
            size > 0,
            p <= data@.len(),
            chunk_views(out@) + chunks_of(data@.skip(p as int), size as nat) == chunks_of(data@, size as nat),
        decreases data.len() - p,
    {
        let ghost d = data@.skip(p as int);
        let ghost prev = chunk_views(out@);
        let end = if data.len() - p <= size { data.len() } else { p + size };
        let piece = slice_to_vec(data, p, end);
        proof {
            if data.len() - p <= size {
                assert(piece@ =~= d);
                assert(data@.skip(end as int).len() == 0);
                assert(chunks_of(data@.skip(end as int), size as nat) =~= Seq::<Seq<u8>>::empty());
                assert(chunks_of(d, size as nat) =~= seq![piece@] + chunks_of(data@.skip(end as int), size as nat));
            } else {
                assert(piece@ =~= d.take(size as int));
                assert(d.skip(size as int) =~= data@.skip(end as int));
            }
        }
        out.push(piece);
        assert(chunk_views(out@) =~= prev.push(piece@));
        assert(prev.push(piece@) + chunks_of(data@.skip(end as int), size as nat) =~= prev + (seq![piece@] + chunks_of(data@.skip(end as int), size as nat)));
        p = end;
    }
    assert(data@.skip(p as int).len() == 0);
    assert(chunk_views(out@) + chunks_of(data@.skip(p as int), size as nat) =~= chunk_views(out@));
    out
}

/// `data` encrypted with a key drawn from `password` in `rounds` rounds: a
/// fresh salt and nonce, then the data read `buffer_size` bytes at a time,
/// each chunk sealed and framed. Decrypting it with the same password and
/// rounds gives the data back. Empty data, or a zero buffer size, leaves
/// nothing to encrypt.
pub fn encrypt(password: &str, data: &[u8], buffer_size: usize, rounds: u32) -> (r: Result<Vec<u8>, Error>)
    ensures
        data@.len() == 0 || buffer_size == 0 ==> r == Err::<Vec<u8>, Error>(Error::EmptySecretSource),
        data@.len() > 0 && buffer_size > 0 && chunks_fit(chunks_of(data@, buffer_size as nat)) ==> (r matches Ok(out)
            && out@.len() >= HEAD_LENGTH
            && out@.skip(HEAD_LENGTH as int) == frames(seal_all(
                pbkdf2_sha256(password.spec_bytes(), out@.take(SALT_LENGTH as int), rounds),
                out@.subrange(SALT_LENGTH as int, HEAD_LENGTH as int),
                chunks_of(data@, buffer_size as nat)))
            && decrypt_result(password.spec_bytes(), rounds, out@) == Ok::<Seq<u8>, Error>(data@)),
        data@.len() > 0 && buffer_size > 0 && !chunks_fit(chunks_of(data@, buffer_size as nat)) ==> r is Err,
{
    let chunks = split_chunks(data, buffer_size);
    let ghost cs = chunk_views(chunks@);
    if chunks.len() == 0 {
        proof {
            if data@.len() > 0 && buffer_size > 0 {
                assert(cs.len() > 0);
            }
        }
        return Err(Error::EmptySecretSource);
    }
    let cipher = AesCipher::new(password, rounds);
    let r = encrypt_chunks(&cipher, &chunks);
    proof {
        if data@.len() == 0 || buffer_size == 0 {
            assert(cs.len() == 0);
        }
        if r is Ok && chunks_fit(cs) {
            let out = r->Ok_0@;
            let key = cipher.key();
            let nonce = cipher.nonce_data@;
            let segs = seal_all(key, nonce, cs);
            assert(out.take(SALT_LENGTH as int) =~= cipher.salt_data@);
            assert(out.subrange(SALT_LENGTH as int, HEAD_LENGTH as int) =~= nonce);
            assert(out.skip(HEAD_LENGTH as int) =~= frames(segs));
            assert forall|k: int| 0 <= k < segs.len() implies (#[trigger] segs[k]).len() <= u32::MAX by {
                assert(cs[k] == chunks@[k]@);
                assert(cs[k].len() + 16 <= u32::MAX);
            }
            assert forall|k: int| 0 <= k < segs.len() implies aes256gcm_open(key, nonce, #[trigger] segs[k]) == Some(cs[k]) by {
                assert(cs[k] == chunks@[k]@);
            }
            lemma_open_frames(key, nonce, segs, cs);
            lemma_chunks_concat(data@, buffer_size as nat);
            lemma_be32(segs[0].len());
            assert(frames(segs).len() >= 4);
        }
    }
    r
}

} // verus!
