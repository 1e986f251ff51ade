//! The dashboard's HTTPS side: the status it reports, the certificate fingerprint it shows,
//! and the bytes already read from a connection before it is handed to a handler.
use vstd::prelude::*;
use crate::text::{chars_of, lower_char, lower_char_exec, string_of, trim, trim_exec};

verus! {

/// Fixed HTTPS sidecar port (HTTP stays on the configured dashboard port).
pub const DASHBOARD_HTTPS_PORT: u16 = 8443;

/// Live TLS listener status for `GET /api/dashboard/tls`.
#[derive(Debug, Clone)]
pub struct DashboardTlsStatus {
    pub https_port: u16,
    pub enabled: bool,
    pub cert_fingerprint: String,
}

/// The status recorded once the listener was set up, or, before that, HTTPS disabled on
/// the fixed port with no fingerprint.
pub fn tls_status(recorded: Option<DashboardTlsStatus>) -> (r: DashboardTlsStatus)
    ensures
        match recorded {
            Some(s) => r == s,
            None => r.https_port == DASHBOARD_HTTPS_PORT && !r.enabled && r.cert_fingerprint@.len() == 0,
        },
{
    match recorded {
        Some(s) => s,
        None => DashboardTlsStatus { https_port: DASHBOARD_HTTPS_PORT, enabled: false, cert_fingerprint: String::new() },
    }
}

/// The status to record after loading the certificate: enabled with its fingerprint, or
/// disabled with none when loading failed.
pub fn status_after_load(fingerprint: Option<String>) -> (r: DashboardTlsStatus)
    ensures
        r.https_port == DASHBOARD_HTTPS_PORT,
        r.enabled == fingerprint is Some,
        match fingerprint {
            Some(f) => r.cert_fingerprint == f,
            None => r.cert_fingerprint@.len() == 0,
        },
{
    match fingerprint {
        Some(f) => DashboardTlsStatus { https_port: DASHBOARD_HTTPS_PORT, enabled: true, cert_fingerprint: f },
        None => DashboardTlsStatus { https_port: DASHBOARD_HTTPS_PORT, enabled: false, cert_fingerprint: String::new() },
    }
}

/// An ASCII hex digit.
pub open spec fn is_hex_digit(c: char) -> bool {
    ('0' <= c && c <= '9') || ('a' <= c && c <= 'f') || ('A' <= c && c <= 'F')
}

/// The hex digits of `s`, in order and in lower case; everything else dropped.
pub open spec fn hex_only(s: Seq<char>) -> Seq<char>
    decreases s.len(),
{
    if s.len() == 0 {
        Seq::empty()
    } else if is_hex_digit(s.last()) {
        hex_only(s.drop_last()).push(lower_char(s.last()))
    } else {
        hex_only(s.drop_last())
    }
}

/// The text between the first `=` and the next one (or the end); none without a `=`.
pub open spec fn second_eq_piece(s: Seq<char>) -> Option<Seq<char>> {
    if exists|i: int| 0 <= i < s.len() && s[i] == '=' {
        let i = choose|i: int| 0 <= i < s.len() && s[i] == '=' && forall|k: int| 0 <= k < i ==> s[k] != '=';
        let rest = s.skip(i + 1);
        Some(crate::ota_channel::before_char(rest, '='))
    } else {
        None
    }
}

/// The SHA-256 fingerprint that `openssl x509 -noout -fingerprint -sha256` printed (as in
/// `sha256 Fingerprint=AB:CD:…`), as bare lowercase hex: the hex digits of the trimmed text
/// after the first `=`, when there are exactly 64 of them.
pub open spec fn spec_openssl_fingerprint(out: Seq<char>) -> Option<Seq<char>> {
    match second_eq_piece(out) {
        Some(p) => if hex_only(trim(p)).len() == 64 {
            Some(hex_only(trim(p)))
        } else {
            None
        },
        None => None,
    }
}

fn is_hex_digit_exec(c: char) -> (r: bool)
    ensures
        r == is_hex_digit(c),
{
    ('0' <= c && c <= '9') || ('a' <= c && c <= 'f') || ('A' <= c && c <= 'F')
}

/// See [`spec_openssl_fingerprint`].
pub fn fingerprint_from_openssl(out: &str) -> (r: Option<String>)
    ensures
        match r {
            Some(f) => spec_openssl_fingerprint(out@) == Some(f@),
            None => spec_openssl_fingerprint(out@) is None,
        },
{
    let s = chars_of(out);
    let mut i: usize = 0;
    while i < s.len() && s[i] != '='
        invariant
            i <= s.len(),
            s@ == out@,
            forall|k: int| 0 <= k < i ==> s@[k] != '=',
        decreases s.len() - i,
    {
        i += 1;
    }
    if i == s.len() {
        return None;
    }
    proof {
        let j = choose|j: int| 0 <= j < s@.len() && s@[j] == '=' && forall|k: int| 0 <= k < j ==> s@[k] != '=';
        assert(s@[i as int] == '=' && forall|k: int| 0 <= k < i ==> s@[k] != '=');
        if j < i {
            assert(s@[j] != '=');
        } else if j > i {
            assert(s@[i as int] != '=');
        }
        assert(j == i);
    }
    let rest = crate::text::copy_slice(s.as_slice(), i + 1, s.len());
    assert(rest@ =~= s@.skip(i + 1));
    let piece = crate::ota_channel::before_char_exec(rest.as_slice(), '=');
    let t = trim_exec(piece.as_slice());
    let mut hex: Vec<char> = Vec::new();
    let mut k: usize = 0;
    assert(t@.take(0) =~= Seq::<char>::empty());
    while k < t.len()
        invariant
            k <= t.len(),
            hex@ == hex_only(t@.take(k as int)),
        decreases t.len() - k,
    {
        assert(t@.take(k + 1).drop_last() =~= t@.take(k as int));
        assert(t@.take(k + 1).last() == t@[k as int]);
        if is_hex_digit_exec(t[k]) {
            hex.push(lower_char_exec(t[k]));
        }
        k += 1;
    }
    assert(t@.take(t.len() as int) =~= t@);
    if hex.len() == 64 {
        Some(string_of(hex.as_slice()))
    } else {
        None
    }
}

/// The MD5 digest of some bytes, as `md5::compute` returns it.
pub uninterp spec fn md5_of(data: Seq<u8>) -> Seq<u8>;

/// `md5::compute`: the 16-byte MD5 digest of the bytes. The digest is left unstated
/// beyond its length; it is named by [`md5_of`].
#[verifier::external_body]
fn md5_digest(data: &[u8]) -> (r: [u8; 16])
    ensures
        r@ == md5_of(data@),
        r@.len() == 16,
{
    md5::compute(data).0
}

/// Bytes as lowercase hex, two digits each (as the digest's `{:x}` prints it).
pub open spec fn hex_bytes(b: Seq<u8>) -> Seq<char>
    decreases b.len(),
{
    if b.len() == 0 {
        Seq::empty()
    } else {
        hex_bytes(b.drop_last()) + seq![
            crate::json::hex_digit((b.last() / 16) as nat),
            crate::json::hex_digit((b.last() % 16) as nat),
        ]
    }
}

/// Bytes as lowercase hex, two digits each: how an MD5 digest is shown.
pub fn digest_hex(b: &[u8]) -> (r: String)
    ensures
        r@ == hex_bytes(b@),
{
    let table = vec!['0', '1', '2', '3', '4', '5', '6', '7', '8', '9', 'a', 'b', 'c', 'd', 'e', 'f'];
    assert(table@ =~= crate::json::hex_digits());
    let mut out: Vec<char> = Vec::new();
    let mut i: usize = 0;
    assert(b@.take(0) =~= Seq::<u8>::empty());
    while i < b.len()
        invariant
            i <= b.len(),
            table@ == crate::json::hex_digits(),
            out@ == hex_bytes(b@.take(i as int)),
        decreases b.len() - i,
    {
        assert(b@.take(i + 1).drop_last() =~= b@.take(i as int));
        assert(b@.take(i + 1).last() == b@[i as int]);
        let v = b[i];
        out.push(table[(v / 16) as usize]);
        out.push(table[(v % 16) as usize]);
        i += 1;
    }
    assert(b@.take(b.len() as int) =~= b@);
    string_of(out.as_slice())
}

/// The fingerprint shown for the dashboard certificate: the one `openssl` printed
/// (`openssl_out`, when it ran and succeeded) if it reads as one, else the MD5 of the
/// certificate's DER bytes in lowercase hex.
pub fn cert_fingerprint(openssl_out: Option<&str>, cert_der: &[u8]) -> (r: String)
    ensures
        r@ == match openssl_out {
            Some(o) => match spec_openssl_fingerprint(o@) {
                Some(f) => f,
                None => hex_bytes(md5_of(cert_der@)),
            },
            None => hex_bytes(md5_of(cert_der@)),
        },
{
    match openssl_out {
        Some(o) => match fingerprint_from_openssl(o) {
            Some(f) => return f,
            None => {},
        },
        None => {},
    }
    let d = md5_digest(cert_der);
    digest_hex(&d)
}

/// The bytes already read from a connection (to route it) that a handler must still see
/// before what the socket delivers.
pub struct ReadPrefix {
    prefix: Vec<u8>,
    pos: usize,
}

impl ReadPrefix {
    /// The bytes still to be handed out.
    pub closed spec fn view_remaining(&self) -> Seq<u8> {
        if self.pos <= self.prefix@.len() {
            self.prefix@.skip(self.pos as int)
        } else {
            Seq::empty()
        }
    }

    /// Nothing read ahead.
    pub fn new() -> (r: Self)
        ensures
            r.view_remaining() == Seq::<u8>::empty(),
    {
        let r = ReadPrefix { prefix: Vec::new(), pos: 0 };
        assert(r.prefix@.skip(0) =~= Seq::<u8>::empty());
        r
    }

    /// The bytes read ahead, to be handed out first.
    pub fn with_prefix(prefix: Vec<u8>) -> (r: Self)
        ensures
            r.view_remaining() == prefix@,
    {
        let r = ReadPrefix { prefix, pos: 0 };
        assert(r.prefix@.skip(0) =~= r.prefix@);
        r
    }

    /// A read of at most `max` bytes: served from what was read ahead while any of it is
    /// left (`None` when nothing is, and the read goes to the socket).
    pub fn read(&mut self, max: usize) -> (r: Option<Vec<u8>>)
        ensures
            old(self).view_remaining().len() == 0 ==> r is None && final(self).view_remaining().len() == 0,
            old(self).view_remaining().len() > 0 ==> {
                let n = if max < old(self).view_remaining().len() {
                    max as int
                } else {
                    old(self).view_remaining().len() as int
                };
                &&& r matches Some(b) && b@ == old(self).view_remaining().take(n)
                &&& final(self).view_remaining() == old(self).view_remaining().skip(n)
            },
    {
        if self.pos < self.prefix.len() {
            let ghost rem = self.prefix@.skip(self.pos as int);
            let avail = self.prefix.len() - self.pos;
            let n = if avail < max { avail } else { max };
            let mut out: Vec<u8> = Vec::new();
            let mut i: usize = 0;
            while i < n
                invariant
                    i <= n <= avail,
                    avail == self.prefix.len() - self.pos,
                    self.pos < self.prefix.len(),
                    out@ == self.prefix@.subrange(self.pos as int, self.pos + i),
                decreases n - i,
            {
                out.push(self.prefix[self.pos + i]);
                assert(self.prefix@.subrange(self.pos as int, self.pos + i + 1) =~= self.prefix@.subrange(
                    self.pos as int,
                    self.pos + i,
                ).push(self.prefix@[self.pos + i]));
                i += 1;
            }
            assert(out@ =~= rem.take(n as int));
            self.pos = self.pos + n;
            if self.pos >= self.prefix.len() {
                self.prefix = Vec::new();
                self.pos = 0;
                assert(self.prefix@.skip(0) =~= Seq::<u8>::empty());
                assert(rem.skip(n as int) =~= Seq::<u8>::empty());
            } else {
                assert(self.prefix@.skip(self.pos as int) =~= rem.skip(n as int));
            }
            Some(out)
        } else {
            None
        }
    }
}

} // verus!
