//! The download-and-verify pipeline.
//!
//! Archive bytes arrive in streamed chunks.  A [`DownloadSession`]
//! appends each chunk to its buffer and feeds it to an incremental
//! SHA-256 digest, tells the caller when a progress event is due, and
//! at the end hands back the full byte buffer together with the hex
//! digest of exactly those bytes — the installed record's integrity
//! fingerprint.  The digest is informational: nothing compares it
//! against a remote-supplied checksum, because the catalog carries
//! none.

use vstd::prelude::*;
use crate::progress::{ModUpdateProgress, spec_download_message, spec_percent};
use crate::strings::chars_to_string;

verus! {

/// What SHA-256 maps a byte sequence to: 32 bytes, a function of the
/// input alone.
pub uninterp spec fn spec_sha256(data: Seq<u8>) -> Seq<u8>;

/// An incremental SHA-256 computation.  It holds sha2's hasher; the
/// contracts see it only through [`hasher_bytes`], the bytes fed so
/// far.
#[verifier::external_body]
pub struct StreamHasher {
    inner: sha2::Sha256,
}

/// The bytes fed to a hasher so far.
pub uninterp spec fn hasher_bytes(h: StreamHasher) -> Seq<u8>;

/// Relies on sha2's `Digest::new`: a fresh hasher has been fed nothing.
#[verifier::external_body]
pub fn hasher_new() -> (h: StreamHasher)
    ensures
        hasher_bytes(h) == Seq::<u8>::empty(),
{
    StreamHasher { inner: <sha2::Sha256 as sha2::Digest>::new() }
}

/// Relies on sha2's `Digest::update`: feeding a chunk appends it to the
/// hashed input.
#[verifier::external_body]
pub fn hasher_update(h: &mut StreamHasher, chunk: &[u8])
    ensures
        hasher_bytes(*final(h)) == hasher_bytes(*old(h)) + chunk@,
{
    sha2::Digest::update(&mut h.inner, chunk);
}

/// Relies on sha2's `Digest::finalize`: the SHA-256 digest of the fed
/// bytes, 32 bytes long (the documented output size).
#[verifier::external_body]
pub fn hasher_finalize(h: StreamHasher) -> (r: Vec<u8>)
    ensures
        r@ == spec_sha256(hasher_bytes(h)),
        r@.len() == 32,
{
    sha2::Digest::finalize(h.inner).to_vec()
}

/// Digest determinism: identical byte payloads always have the
/// identical hex digest, in this run and in any other.
pub proof fn lemma_digest_deterministic(a: Seq<u8>, b: Seq<u8>)
    requires
        a == b,
    ensures
        spec_hex(spec_sha256(a)) == spec_hex(spec_sha256(b)),
{
}

pub open spec fn hex_digit(d: int) -> char {
    if d == 0 {
        '0'
    } else if d == 1 {
        '1'
    } else if d == 2 {
        '2'
    } else if d == 3 {
        '3'
    } else if d == 4 {
        '4'
    } else if d == 5 {
        '5'
    } else if d == 6 {
        '6'
    } else if d == 7 {
        '7'
    } else if d == 8 {
        '8'
    } else if d == 9 {
        '9'
    } else if d == 10 {
        'a'
    } else if d == 11 {
        'b'
    } else if d == 12 {
        'c'
    } else if d == 13 {
        'd'
    } else if d == 14 {
        'e'
    } else {
        'f'
    }
}

/// Lowercase hex: two digits for each byte, high digit first.
pub open spec fn spec_hex(data: Seq<u8>) -> Seq<char>
    decreases data.len(),
{
    if data.len() == 0 {
        Seq::empty()
    } else {
        seq![hex_digit(data[0] as int / 16), hex_digit(data[0] as int % 16)] + spec_hex(
            data.drop_first(),
        )
    }
}

fn hex_digit_exec(d: u8) -> (c: char)
    requires
        d < 16,
    ensures
        c == hex_digit(d as int),
{
    if d == 0 {
        '0'
    } else if d == 1 {
        '1'
    } else if d == 2 {
        '2'
    } else if d == 3 {
        '3'
    } else if d == 4 {
        '4'
    } else if d == 5 {
        '5'
    } else if d == 6 {
        '6'
    } else if d == 7 {
        '7'
    } else if d == 8 {
        '8'
    } else if d == 9 {
        '9'
    } else if d == 10 {
        'a'
    } else if d == 11 {
        'b'
    } else if d == 12 {
        'c'
    } else if d == 13 {
        'd'
    } else if d == 14 {
        'e'
    } else {
        'f'
    }
}

/// Encode bytes as lowercase hex.
#[verifier::loop_isolation(false)]
pub fn to_hex(data: &Vec<u8>) -> (r: String)
    ensures
        r@ == spec_hex(data@),
{
    let mut out: Vec<char> = Vec::new();
    let n = data.len();
    proof {
        assert(data@.skip(0) =~= data@);
    }
    for i in 0..n
        invariant
            spec_hex(data@) =~= out@ + spec_hex(data@.skip(i as int)),
    {
        let b = data[i];
        out.push(hex_digit_exec(b / 16));
        out.push(hex_digit_exec(b % 16));
        proof {
            assert(data@.skip(i as int)[0] == data@[i as int]);
            assert(data@.skip(i as int).drop_first() =~= data@.skip(i + 1));
        }
    }
    proof {
        assert(data@.skip(n as int) =~= Seq::<u8>::empty());
        assert(out@ + Seq::<char>::empty() =~= out@);
    }
    chars_to_string(&out)
}

/// A progress event is due at every 512 KiB boundary and when the
/// download is complete.
pub open spec fn spec_emit_boundary(downloaded: int, total: int) -> bool {
    downloaded % 0x80000 == 0 || downloaded == total
}

/// One streaming download in progress.
pub struct DownloadSession {
    pub mod_name: String,
    pub downloaded: u64,
    pub total: u64,
    pub buffer: Vec<u8>,
    pub hasher: StreamHasher,
}

impl DownloadSession {
    /// The session invariant: the byte count matches the buffer, and
    /// the digest has been fed exactly the buffered bytes.
    pub open spec fn wf(&self) -> bool {
        &&& self.downloaded == self.buffer@.len()
        &&& hasher_bytes(self.hasher) == self.buffer@
    }

    /// Start a download whose expected size is `total` (zero when the
    /// response named no content length).
    pub fn begin(mod_name: String, total: u64) -> (s: Self)
        ensures
            s.wf(),
            s.buffer@ == Seq::<u8>::empty(),
            s.downloaded == 0,
            s.total == total,
            s.mod_name@ == mod_name@,
    {
        DownloadSession {
            mod_name,
            downloaded: 0,
            total,
            buffer: Vec::new(),
            hasher: hasher_new(),
        }
    }

    /// Take one streamed chunk: the buffer grows by exactly the chunk,
    /// the digest is fed the same bytes, and a progress event is handed
    /// back exactly at reporting boundaries.
    #[verifier::loop_isolation(false)]
    pub fn push_chunk(&mut self, chunk: &[u8]) -> (ev: Option<ModUpdateProgress>)
        requires
            old(self).wf(),
            old(self).downloaded + chunk@.len() <= u64::MAX,
        ensures
            final(self).wf(),
            final(self).buffer@ == old(self).buffer@ + chunk@,
            final(self).downloaded == old(self).downloaded + chunk@.len(),
            final(self).total == old(self).total,
            final(self).mod_name@ == old(self).mod_name@,
            (ev is Some) == spec_emit_boundary(
                final(self).downloaded as int,
                final(self).total as int,
            ),
            ev matches Some(e) ==> {
                &&& e.mod_name@ == old(self).mod_name@
                &&& e.step@ == "downloading"@
                &&& e.current == final(self).downloaded
                &&& e.total == final(self).total
                &&& e.percentage == spec_percent(
                    final(self).downloaded as int,
                    final(self).total as int,
                )
                &&& e.message@ == spec_download_message(
                    final(self).downloaded as int,
                    final(self).total as int,
                )
            },
    {
        let n = chunk.len();
        let ghost buf0 = self.buffer@;
        for i in 0..n
            invariant
                self.buffer@ == buf0 + chunk@.subrange(0, i as int),
                self.mod_name@ == old(self).mod_name@,
                self.downloaded == old(self).downloaded,
                self.total == old(self).total,
                self.hasher == old(self).hasher,
        {
            self.buffer.push(chunk[i]);
            proof {
                assert(buf0 + chunk@.subrange(0, i as int).push(chunk@[i as int]) =~= buf0
                    + chunk@.subrange(0, i + 1 as int));
            }
        }
        proof {
            assert(chunk@.subrange(0, n as int) =~= chunk@);
        }
        hasher_update(&mut self.hasher, chunk);
        self.downloaded = self.downloaded + n as u64;
        if self.downloaded % 0x80000 == 0 || self.downloaded == self.total {
            Some(ModUpdateProgress::downloading(&self.mod_name, self.downloaded, self.total))
        } else {
            None
        }
    }

    /// Finish the download: the full byte buffer and the hex digest of
    /// exactly those bytes.
    pub fn finish(self) -> (r: (Vec<u8>, String))
        requires
            self.wf(),
        ensures
            r.0@ == self.buffer@,
            r.1@ == spec_hex(spec_sha256(self.buffer@)),
    {
        let digest = hasher_finalize(self.hasher);
        let hex = to_hex(&digest);
        (self.buffer, hex)
    }
}

} // verus!
