//! Minimal mDNS client: query and announcement builders, response parsers.
//!
//! Names read from a packet are wire text (one byte per character), bounded by the size of
//! their UTF-8 encoding.

use crate::command::Protocol;
use crate::text::{fit_wire, wire_len, wire_text, wire_width};
use vstd::prelude::*;
use vstd::string::StringSliceAdditionalSpecFns;

verus! {

/// Advertised while STA HTTP OTA is enabled.
pub const OTA_HTTP_SERVICE: &'static str = "_longfred-ota._tcp.local";

pub const MDNS_PORT: u16 = 5353;

pub const TYPE_A: u16 = 1;

pub const TYPE_TXT: u16 = 16;

pub const TYPE_SRV: u16 = 33;

/// Capacity of a dotted name read from a packet (UTF-8 bytes).
pub const NAME_CAP: usize = 128;

pub fn mdns_multicast_v4() -> (a: [u8; 4])
    ensures
        a@ == seq![224u8, 0, 0, 251],
{
    let mut a: [u8; 4] = [0u8; 4];
    a[0] = 224;
    a[3] = 251;
    assert(a@ =~= seq![224u8, 0, 0, 251]);
    a
}

/// DNS name of a dotted text: each dot-separated label (empty ones too) as its length byte
/// and bytes, then the root label.
pub open spec fn labels_spec(s: Seq<u8>) -> Seq<u8>
    decreases s.len(),
{
    match crate::text::find_from(s, seq![46u8], 0) {
        Some(p) => if 0 <= p < s.len() {
            seq![p as u8] + s.take(p) + labels_spec(s.skip(p + 1))
        } else {
            Seq::empty()
        },
        None => seq![s.len() as u8] + s,
    }
}

pub open spec fn ptr_query_spec(service: Seq<u8>) -> Seq<u8> {
    seq![0u8, 0, 0, 0, 0, 1, 0, 0, 0, 0, 0, 0] + labels_spec(service) + seq![0u8, 0x00, 0x0c, 0x00, 0x01]
}

/// `buf` after writing `data` at its start as far as it fits.
pub open spec fn bounded_write(buf: Seq<u8>, data: Seq<u8>) -> Seq<u8> {
    Seq::new(buf.len(), |i: int| if i < data.len() { data[i] } else { buf[i] })
}

fn write_bounded(buf: &mut [u8], data: &[u8]) -> (n: usize)
    ensures
        final(buf)@ == bounded_write(old(buf)@, data@),
        n == (if data@.len() < old(buf)@.len() { data@.len() } else { old(buf)@.len() }),
{
    let m = if data.len() < buf.len() {
        data.len()
    } else {
        buf.len()
    };
    let mut i: usize = 0;
    while i < m
        invariant
            i <= m,
            m <= data@.len(),
            m <= buf@.len(),
            buf@.len() == old(buf)@.len(),
            m == (if data@.len() < old(buf)@.len() { data@.len() } else { old(buf)@.len() }),
            forall|j: int| 0 <= j < i ==> buf@[j] == data@[j],
            forall|j: int| i <= j < buf@.len() ==> buf@[j] == old(buf)@[j],
        decreases m - i,
    {
        buf[i] = data[i];
        i = i + 1;
    }
    assert(buf@ =~= bounded_write(old(buf)@, data@));
    m
}

fn push_labels(out: &mut Vec<u8>, s: &[u8])
    ensures
        final(out)@ == old(out)@ + labels_spec(s@),
{
    let dot: Vec<u8> = vec![46u8];
    assert(dot@ =~= seq![46u8]);
    let mut start: usize = 0;
    let n = s.len();
    assert(s@.skip(0) =~= s@);
    loop
        invariant
            start <= n,
            n == s@.len(),
            dot@ == seq![46u8],
            old(out)@ + labels_spec(s@) == out@ + labels_spec(s@.skip(start as int)),
        decreases n - start,
    {
        let rest = crate::text::copy_range(s, start, n);
        assert(rest@ =~= s@.skip(start as int));
        match crate::text::find_bytes(rest.as_slice(), dot.as_slice(), 0) {
            Some(p) => {
                proof {
                    crate::text::lemma_find_from_facts(rest@, seq![46u8], 0);
                }
                let ghost before = out@;
                out.push(p as u8);
                crate::text::append_bytes(out, crate::text::copy_range(rest.as_slice(), 0, p).as_slice());
                assert(rest@.subrange(0, p as int) =~= rest@.take(p as int));
                assert(rest@.skip(p + 1) =~= s@.skip(start + p + 1));
                assert(before + (seq![p as u8] + rest@.take(p as int) + labels_spec(rest@.skip(p + 1))) =~= out@ + labels_spec(rest@.skip(p + 1)));
                start = start + p + 1;
            },
            None => {
                out.push(rest.len() as u8);
                crate::text::append_bytes(out, rest.as_slice());
                assert(out@ =~= old(out)@ + labels_spec(s@));
                return;
            },
        }
    }
}

/// Builds a PTR query for `service` into `buf`; returns the bytes written (the query is cut
/// off when `buf` is shorter).
pub fn build_ptr_query(service: &str, buf: &mut [u8]) -> (n: usize)
    ensures
        final(buf)@ == bounded_write(old(buf)@, ptr_query_spec(service.spec_bytes())),
        n == (if ptr_query_spec(service.spec_bytes()).len() < old(buf)@.len() {
            ptr_query_spec(service.spec_bytes()).len()
        } else {
            old(buf)@.len()
        }),
{
    let mut q: Vec<u8> = vec![0u8, 0, 0, 0, 0, 1, 0, 0, 0, 0, 0, 0];
    let ghost h = q@;
    push_labels(&mut q, service.as_bytes());
    q.push(0);
    q.push(0x00);
    q.push(0x0c);
    q.push(0x00);
    q.push(0x01);
    assert(q@ =~= ptr_query_spec(service.spec_bytes()));
    write_bounded(buf, q.as_slice())
}

} // verus!

verus! {

pub open spec fn be16_bytes(v: u16) -> Seq<u8> {
    seq![(v / 256) as u8, (v % 256) as u8]
}

/// `_longfred-ota`.
pub open spec fn ota_label() -> Seq<u8> {
    seq![95u8, 108, 111, 110, 103, 102, 114, 101, 100, 45, 111, 116, 97]
}

/// `_tcp`.
pub open spec fn tcp_label() -> Seq<u8> {
    seq![95u8, 116, 99, 112]
}

/// `local`.
pub open spec fn local_label() -> Seq<u8> {
    seq![108u8, 111, 99, 97, 108]
}

/// `_longfred-ota._tcp.local` as a DNS name.
pub open spec fn ota_service_name() -> Seq<u8> {
    seq![13u8] + ota_label() + seq![4u8] + tcp_label() + seq![5u8] + local_label() + seq![0u8]
}

/// `{host}.local` as a DNS name.
pub open spec fn host_local_name(h: Seq<u8>) -> Seq<u8> {
    seq![h.len() as u8] + h + seq![5u8] + local_label() + seq![0u8]
}

pub open spec fn len_or_zero(n: int) -> u16 {
    if n <= 65535 {
        n as u16
    } else {
        0
    }
}

/// Unsolicited announcement of `_longfred-ota._tcp`: PTR to `{host}._longfred-ota._tcp.local`,
/// SRV to `{host}.local:{port}`, A record with `ip`, all with TTL 120.
pub open spec fn ota_announce_spec(h: Seq<u8>, ip: Seq<u8>, port: u16) -> Seq<u8> {
    let instance = seq![h.len() as u8] + h + ota_service_name();
    seq![0u8, 0, 0x84, 0, 0, 0, 0, 3, 0, 0, 0, 0] + ota_service_name() + seq![0u8, 12, 0, 1, 0, 0, 0, 120]
        + be16_bytes(len_or_zero(h.len() + 27int)) + instance + instance + seq![0u8, 33, 0, 1, 0, 0, 0, 120]
        + be16_bytes(len_or_zero(h.len() + 14int)) + seq![0u8, 0, 0, 0] + be16_bytes(port) + host_local_name(h)
        + host_local_name(h) + seq![0u8, 1, 0, 1, 0, 0, 0, 120, 0, 4] + ip
}

fn put_be16(out: &mut Vec<u8>, v: u16)
    ensures
        final(out)@ == old(out)@ + be16_bytes(v),
{
    out.push((v / 256) as u8);
    out.push((v % 256) as u8);
    assert(out@ =~= old(out)@ + be16_bytes(v));
}

fn put_ota_service(out: &mut Vec<u8>)
    ensures
        final(out)@ == old(out)@ + ota_service_name(),
{
    let v: Vec<u8> = vec![13u8, 95, 108, 111, 110, 103, 102, 114, 101, 100, 45, 111, 116, 97, 4, 95, 116, 99, 112, 5, 108, 111, 99, 97, 108, 0];
    assert(v@ =~= ota_service_name());
    crate::text::append_bytes(out, v.as_slice());
}

fn put_host_local(out: &mut Vec<u8>, h: &[u8])
    ensures
        final(out)@ == old(out)@ + host_local_name(h@),
{
    out.push(h.len() as u8);
    crate::text::append_bytes(out, h);
    let v: Vec<u8> = vec![5u8, 108, 111, 99, 97, 108, 0];
    assert(v@ =~= seq![5u8] + local_label() + seq![0u8]);
    crate::text::append_bytes(out, v.as_slice());
    assert(out@ =~= old(out)@ + host_local_name(h@));
}

fn put_instance(out: &mut Vec<u8>, h: &[u8])
    ensures
        final(out)@ == old(out)@ + (seq![h@.len() as u8] + h@ + ota_service_name()),
{
    out.push(h.len() as u8);
    crate::text::append_bytes(out, h);
    put_ota_service(out);
    assert(out@ =~= old(out)@ + (seq![h@.len() as u8] + h@ + ota_service_name()));
}

fn put_lit(out: &mut Vec<u8>, v: Vec<u8>)
    ensures
        final(out)@ == old(out)@ + v@,
{
    crate::text::append_bytes(out, v.as_slice());
}

/// Writes the OTA announcement for `hostname` into `buf`; returns the bytes written (cut
/// off when `buf` is shorter).
pub fn build_ota_announce(hostname: &str, ipv4: [u8; 4], port: u16, buf: &mut [u8]) -> (n: usize)
    ensures
        final(buf)@ == bounded_write(old(buf)@, ota_announce_spec(hostname.spec_bytes(), ipv4@, port)),
        n == (if ota_announce_spec(hostname.spec_bytes(), ipv4@, port).len() < old(buf)@.len() {
            ota_announce_spec(hostname.spec_bytes(), ipv4@, port).len()
        } else {
            old(buf)@.len()
        }),
{
    let h = hostname.as_bytes();
    let hl = h.len();
    let mut q: Vec<u8> = Vec::new();
    let hdr: Vec<u8> = vec![0u8, 0, 0x84, 0, 0, 0, 0, 3, 0, 0, 0, 0];
    put_lit(&mut q, hdr);
    put_ota_service(&mut q);
    let ptr_rr: Vec<u8> = vec![0u8, 12, 0, 1, 0, 0, 0, 120];
    put_lit(&mut q, ptr_rr);
    let il: u16 = if hl <= 65535 - 27 {
        (hl + 27) as u16
    } else {
        0
    };
    put_be16(&mut q, il);
    put_instance(&mut q, h);
    put_instance(&mut q, h);
    let srv_rr: Vec<u8> = vec![0u8, 33, 0, 1, 0, 0, 0, 120];
    put_lit(&mut q, srv_rr);
    let tl: u16 = if hl <= 65535 - 14 {
        (hl + 14) as u16
    } else {
        0
    };
    put_be16(&mut q, tl);
    let zero4: Vec<u8> = vec![0u8, 0, 0, 0];
    put_lit(&mut q, zero4);
    put_be16(&mut q, port);
    put_host_local(&mut q, h);
    put_host_local(&mut q, h);
    let a_rr: Vec<u8> = vec![0u8, 1, 0, 1, 0, 0, 0, 120, 0, 4];
    put_lit(&mut q, a_rr);
    crate::text::append_bytes(&mut q, ipv4.as_slice());
    assert(q@ =~= ota_announce_spec(hostname.spec_bytes(), ipv4@, port));
    write_bounded(buf, q.as_slice())
}

} // verus!

verus! {

/// A character appended to a bounded name: dropped when it would overflow [`NAME_CAP`].
pub open spec fn name_push(name: Seq<u8>, c: u8, cap: nat) -> Seq<u8> {
    if wire_len(name) + wire_width(c) <= cap {
        name.push(c)
    } else {
        name
    }
}

pub open spec fn name_push_all(name: Seq<u8>, s: Seq<u8>, cap: nat) -> Seq<u8>
    decreases s.len(),
{
    if s.len() == 0 {
        name
    } else {
        name_push(name_push_all(name, s.drop_last(), cap), s.last(), cap)
    }
}

/// Reading a (possibly compressed) DNS name at `off`: labels are joined with dots into a
/// bounded name; a pointer (top two bits set) continues at its target, at most 16 times.
/// Gives the name and the offset after the name as stored at the start.
pub open spec fn read_name_spec(pkt: Seq<u8>, off: int, name: Seq<u8>, next: Option<int>, jumps: int) -> Option<(Seq<u8>, int)>
    decreases 17 - jumps, pkt.len() + 1 - off,
{
    if off < 0 || off >= pkt.len() || jumps < 0 || jumps > 16 {
        None
    } else {
        let len = pkt[off];
        if len == 0 {
            Some((name, match next {
                Some(n) => n,
                None => off + 1,
            }))
        } else if len & 0xc0 == 0xc0 {
            if off + 1 >= pkt.len() || jumps + 1 > 16 {
                None
            } else {
                let ptr = ((len & 0x3f) as int) * 256 + pkt[off + 1] as int;
                read_name_spec(pkt, ptr, name, if next is None { Some(off + 2) } else { next }, jumps + 1)
            }
        } else if off + 1 + len as int > pkt.len() {
            None
        } else {
            let n1 = if name.len() > 0 { name_push(name, 46, NAME_CAP as nat) } else { name };
            read_name_spec(pkt, off + 1 + len as int, name_push_all(n1, pkt.subrange(off + 1, off + 1 + len as int), NAME_CAP as nat), next, jumps)
        }
    }
}

fn push_bounded(name: &mut Vec<u8>, name_len: &mut usize, c: u8, cap: usize)
    requires
        *old(name_len) == wire_len(old(name)@),
        *old(name_len) <= cap,
    ensures
        final(name)@ == name_push(old(name)@, c, cap as nat),
        *final(name_len) == wire_len(final(name)@),
        *final(name_len) <= cap,
{
    let w: usize = if c < 128 {
        1
    } else {
        2
    };
    if *name_len <= cap && w <= cap - *name_len {
        let ghost o = name@;
        name.push(c);
        assert(name@.drop_last() =~= o);
        *name_len = *name_len + w;
    }
}

fn push_all_bounded(name: &mut Vec<u8>, name_len: &mut usize, s: &[u8], cap: usize)
    requires
        *old(name_len) == wire_len(old(name)@),
        *old(name_len) <= cap,
    ensures
        final(name)@ == name_push_all(old(name)@, s@, cap as nat),
        *final(name_len) == wire_len(final(name)@),
        *final(name_len) <= cap,
{
    let mut i: usize = 0;
    while i < s.len()
        invariant
            i <= s@.len(),
            *name_len == wire_len(name@),
            *name_len <= cap,
            name@ == name_push_all(old(name)@, s@.take(i as int), cap as nat),
        decreases s@.len() - i,
    {
        assert(s@.take(i + 1).drop_last() =~= s@.take(i as int));
        push_bounded(name, name_len, s[i], cap);
        i = i + 1;
    }
    assert(s@.take(i as int) =~= s@);
}

/// Reads the DNS name at `start`.
pub fn read_name(pkt: &[u8], start: usize) -> (r: Option<(Vec<u8>, usize)>)
    ensures
        match read_name_spec(pkt@, start as int, Seq::empty(), None, 0) {
            Some((n, o)) => r matches Some((rn, ro)) && rn@ == n && ro == o,
            None => r is None,
        },
{
    let mut name: Vec<u8> = Vec::new();
    let mut name_len: usize = 0;
    let mut off: usize = start;
    let mut next: Option<usize> = None;
    let mut jumps: usize = 0;
    let n = pkt.len();
    loop
        invariant
            n == pkt@.len(),
            jumps <= 16,
            name_len == wire_len(name@),
            name_len <= NAME_CAP,
            next matches Some(x) ==> x <= n + 1,
            read_name_spec(pkt@, start as int, Seq::empty(), None, 0) == read_name_spec(
                pkt@,
                off as int,
                name@,
                match next {
                    Some(x) => Some(x as int),
                    None => None,
                },
                jumps as int,
            ),
        decreases 17 - jumps, n + 1 - off,
    {
        if off >= n {
            return None;
        }
        let len = pkt[off];
        if len == 0 {
            let end = match next {
                Some(x) => x,
                None => off + 1,
            };
            return Some((name, end));
        }
        if len & 0xc0 == 0xc0 {
            if off + 1 >= n || jumps + 1 > 16 {
                return None;
            }
            let ptr: usize = ((len & 0x3f) as usize) * 256 + (pkt[off + 1] as usize);
            if next.is_none() {
                next = Some(off + 2);
            }
            jumps = jumps + 1;
            off = ptr;
        } else {
            let l = len as usize;
            if l > n - off - 1 {
                return None;
            }
            if name.len() > 0 {
                push_bounded(&mut name, &mut name_len, 46, NAME_CAP);
            }
            let label = crate::text::copy_range(pkt, off + 1, off + 1 + l);
            push_all_bounded(&mut name, &mut name_len, label.as_slice(), NAME_CAP);
            off = off + 1 + l;
        }
    }
}

pub open spec fn be16_at(pkt: Seq<u8>, off: int) -> Option<u16> {
    if 0 <= off && off + 1 < pkt.len() {
        Some((pkt[off] as int * 256 + pkt[off + 1] as int) as u16)
    } else {
        None
    }
}

pub fn be16(pkt: &[u8], off: usize) -> (r: Option<u16>)
    ensures
        r == be16_at(pkt@, off as int),
{
    let n = pkt.len();
    if off < n && n - off >= 2 {
        Some((pkt[off] as u16) * 256 + (pkt[off + 1] as u16))
    } else {
        None
    }
}

} // verus!

verus! {

/// A host advertising `_longfred-ota._tcp` (from an A record).
#[derive(Debug, Clone, PartialEq, Eq)]
pub struct OtaHost {
    /// First label of the record's name (at most 32 UTF-8 bytes, else empty).
    pub hostname: Vec<u8>,
    pub ipv4: [u8; 4],
    pub port: u16,
}

impl View for OtaHost {
    type V = (Seq<u8>, Seq<u8>, u16);

    open spec fn view(&self) -> (Seq<u8>, Seq<u8>, u16) {
        (self.hostname@, self.ipv4@, self.port)
    }
}

/// First dot-separated label of a name.
pub open spec fn first_label(name: Seq<u8>) -> Seq<u8> {
    name.take(crate::withrottle::parser::upto(name, seq![46u8], 0))
}

pub open spec fn sat_usize(n: int) -> int {
    if n > usize::MAX {
        usize::MAX as int
    } else {
        n
    }
}

/// Resource records from `off`, `k` at most: SRV records set the port used for the A
/// records that follow (80 before any), and every 4-byte A record gives a host. Reading
/// stops at a malformed record or when `cap` hosts are found.
pub open spec fn ota_fold(pkt: Seq<u8>, off: int, port: u16, out: Seq<(Seq<u8>, Seq<u8>, u16)>, k: nat, cap: nat) -> Seq<(Seq<u8>, Seq<u8>, u16)>
    decreases k,
{
    if k == 0 {
        out
    } else {
        match read_name_spec(pkt, off, Seq::empty(), None, 0) {
            None => out,
            Some((name, nend)) => match be16_at(pkt, nend) {
                None => out,
                Some(typ) => match be16_at(pkt, nend + 8) {
                    None => out,
                    Some(rdlen) => {
                        let rdata = nend + 10;
                        let off2 = sat_usize(rdata + rdlen);
                        let port2 = if typ == TYPE_SRV && rdlen >= 6 {
                            match be16_at(pkt, rdata + 4) {
                                Some(p) => p,
                                None => port,
                            }
                        } else {
                            port
                        };
                        let out2 = if typ == TYPE_A && rdlen == 4 && rdata + 3 < pkt.len() && out.len() < cap {
                            out.push((fit_wire(first_label(name), 32), pkt.subrange(rdata, rdata + 4), port2))
                        } else {
                            out
                        };
                        if out2.len() >= cap {
                            out2
                        } else {
                            ota_fold(pkt, off2, port2, out2, (k - 1) as nat, cap)
                        }
                    },
                },
            },
        }
    }
}

/// Hosts found in an mDNS response, at most `N`.
pub open spec fn ota_hosts_spec(pkt: Seq<u8>, cap: nat) -> Seq<(Seq<u8>, Seq<u8>, u16)> {
    if pkt.len() < 12 {
        Seq::empty()
    } else {
        let an = be16_at(pkt, 6).unwrap();
        let ns = be16_at(pkt, 8).unwrap();
        let ar = be16_at(pkt, 10).unwrap();
        let total = if an + ns + ar > 65535 { 65535 } else { an + ns + ar };
        ota_fold(pkt, 12, 80, Seq::empty(), total as nat, cap)
    }
}

pub open spec fn ota_view(v: Seq<OtaHost>) -> Seq<(Seq<u8>, Seq<u8>, u16)> {
    v.map_values(|h: OtaHost| h@)
}

/// Collects OTA hosts from an mDNS packet (LAN firmware discovery).
pub fn collect_ota_hosts<const N: usize>(pkt: &[u8]) -> (r: Vec<OtaHost>)
    ensures
        ota_view(r@) == ota_hosts_spec(pkt@, N as nat),
{
    let mut out: Vec<OtaHost> = Vec::new();
    if pkt.len() < 12 {
        assert(ota_view(out@) =~= Seq::<(Seq<u8>, Seq<u8>, u16)>::empty());
        return out;
    }
    let an = be16(pkt, 6).unwrap();
    let ns = be16(pkt, 8).unwrap();
    let ar = be16(pkt, 10).unwrap();
    let s1: u16 = if an as u32 + ns as u32 > 65535 {
        65535
    } else {
        an + ns
    };
    let total: u16 = if s1 as u32 + ar as u32 > 65535 {
        65535
    } else {
        s1 + ar
    };
    assert(total == (if an + ns + ar > 65535 { 65535 } else { an + ns + ar }));
    let mut off: usize = 12;
    let mut port: u16 = 80;
    let mut i: u16 = 0;
    assert(ota_view(out@) =~= Seq::<(Seq<u8>, Seq<u8>, u16)>::empty());
    while i < total
        invariant
            i <= total,
            out@.len() < N || i == 0 && N == 0,
            ota_hosts_spec(pkt@, N as nat) == ota_fold(pkt@, off as int, port, ota_view(out@), (total - i) as nat, N as nat),
        decreases total - i,
    {
        let (name, nend) = match read_name(pkt, off) {
            Some(v) => v,
            None => {
                return out;
            },
        };
        let typ = match be16(pkt, nend) {
            Some(t) => t,
            None => {
                return out;
            },
        };
        let n = pkt.len();
        if nend >= n || n - nend < 10 {
            return out;
        }
        let rdlen = match be16(pkt, nend + 8) {
            Some(v) => v,
            None => {
                return out;
            },
        };
        assert(nend + 10 <= n);
        let rdata: usize = nend + 10;
        let off2: usize = if rdata > usize::MAX - (rdlen as usize) {
            usize::MAX
        } else {
            rdata + rdlen as usize
        };
        if typ == TYPE_SRV && rdlen >= 6 {
            if rdata <= usize::MAX - 4 {
                match be16(pkt, rdata + 4) {
                    Some(p) => {
                        port = p;
                    },
                    None => {},
                }
            }
        }
        if typ == TYPE_A && rdlen == 4 && rdata < n && n - rdata > 3 && out.len() < N {
            let mut ip: [u8; 4] = [0u8; 4];
            ip[0] = pkt[rdata];
            ip[1] = pkt[rdata + 1];
            ip[2] = pkt[rdata + 2];
            ip[3] = pkt[rdata + 3];
            assert(ip@ =~= pkt@.subrange(rdata as int, rdata + 4));
            let dot: Vec<u8> = vec![46u8];
            assert(dot@ =~= seq![46u8]);
            proof {
                crate::text::lemma_find_from_facts(name@, seq![46u8], 0);
            }
            let cut = match crate::text::find_bytes(name.as_slice(), dot.as_slice(), 0) {
                Some(p) => p,
                None => name.len(),
            };
            let hostname = wire_text(name.as_slice(), 0, cut, 32);
            assert(name@.subrange(0, cut as int) =~= first_label(name@));
            let ghost before = ota_view(out@);
            out.push(OtaHost { hostname, ipv4: ip, port });
            assert(ota_view(out@) =~= before.push((fit_wire(first_label(name@), 32), pkt@.subrange(rdata as int, rdata + 4), port)));
        }
        if out.len() >= N {
            return out;
        }
        off = off2;
        i = i + 1;
    }
    out
}

} // verus!

verus! {

/// Discovered command station from SRV (+A, +TXT) records.
#[derive(Debug, Clone, PartialEq, Eq)]
pub struct WitServer {
    /// First instance label (e.g. `JMRI`): one byte per received character, their UTF-8
    /// size at most 32 bytes.
    pub label: Vec<u8>,
    /// Layout name a BigFred station advertises in TXT (`layoutName=`), at most 32 bytes.
    pub layout_name: Vec<u8>,
    pub port: u16,
    pub ipv4: Option<[u8; 4]>,
    pub protocol: Protocol,
}

pub struct ServerModel {
    pub label: Seq<u8>,
    pub layout_name: Seq<u8>,
    pub port: u16,
    pub ipv4: Option<Seq<u8>>,
    pub protocol: Protocol,
}

impl View for WitServer {
    type V = ServerModel;

    open spec fn view(&self) -> ServerModel {
        ServerModel {
            label: self.label@,
            layout_name: self.layout_name@,
            port: self.port,
            ipv4: match self.ipv4 {
                Some(a) => Some(a@),
                None => None,
            },
            protocol: self.protocol,
        }
    }
}

pub open spec fn servers_view(v: Seq<WitServer>) -> Seq<ServerModel> {
    v.map_values(|s: WitServer| s@)
}

/// mDNS service name of a protocol (BigFred advertises as WiThrottle).
pub open spec fn service_bytes(p: Protocol) -> Seq<u8> {
    if p == Protocol::Z21 {
        seq![95u8, 122, 50, 49, 46, 95, 117, 100, 112, 46, 108, 111, 99, 97, 108]
    } else {
        seq![95u8, 119, 105, 116, 104, 114, 111, 116, 116, 108, 101, 46, 95, 116, 99, 112, 46, 108, 111, 99, 97, 108]
    }
}

fn service_name(p: Protocol) -> (r: Vec<u8>)
    ensures
        r@ == service_bytes(p),
{
    let r: Vec<u8> = match p {
        Protocol::Z21 => vec![95u8, 122, 50, 49, 46, 95, 117, 100, 112, 46, 108, 111, 99, 97, 108],
        _ => vec![95u8, 119, 105, 116, 104, 114, 111, 116, 116, 108, 101, 46, 95, 116, 99, 112, 46, 108, 111, 99, 97, 108],
    };
    assert(r@ =~= service_bytes(p));
    r
}

pub open spec fn ascii_lower(c: u8) -> u8 {
    if 65 <= c <= 90 {
        (c + 32) as u8
    } else {
        c
    }
}

pub open spec fn ascii_ci_eq(a: Seq<u8>, b: Seq<u8>) -> bool {
    a.len() == b.len() && forall|i: int| 0 <= i < a.len() ==> ascii_lower(#[trigger] a[i]) == ascii_lower(b[i])
}

/// `owner` is `{instance}.{service}` with a non-empty instance; the service compares
/// ASCII-case-insensitively.
pub open spec fn is_service_instance(owner: Seq<u8>, svc: Seq<u8>) -> bool {
    owner.len() >= svc.len() + 2 && owner[owner.len() - svc.len() - 1] == 46 && ascii_ci_eq(
        owner.skip(owner.len() - svc.len()),
        svc,
    ) && forall|i: int| owner.len() - svc.len() <= i < owner.len() ==> #[trigger] owner[i] < 128
}

/// TXT character strings from `i`: whether `layoutId=` and `commandStationId=` were seen,
/// and the first `layoutName=` value.
pub open spec fn txt_scan(r: Seq<u8>, i: int) -> (bool, bool, Option<Seq<u8>>)
    decreases r.len() - i,
{
    if i < 0 || i >= r.len() {
        (false, false, None)
    } else {
        let n = r[i] as int;
        let s = i + 1;
        if s + n > r.len() {
            (false, false, None)
        } else {
            let chunk = r.subrange(s, s + n);
            let (l, c, name) = txt_scan(r, s + n);
            (
                l || crate::text::is_at(chunk, layout_id_tag(), 0),
                c || crate::text::is_at(chunk, station_id_tag(), 0),
                if crate::text::is_at(chunk, layout_name_tag(), 0) {
                    Some(chunk.skip(11))
                } else {
                    name
                },
            )
        }
    }
}

/// `layoutId=`.
pub open spec fn layout_id_tag() -> Seq<u8> {
    seq![108u8, 97, 121, 111, 117, 116, 73, 100, 61]
}

/// `commandStationId=`.
pub open spec fn station_id_tag() -> Seq<u8> {
    seq![99u8, 111, 109, 109, 97, 110, 100, 83, 116, 97, 116, 105, 111, 110, 73, 100, 61]
}

/// `layoutName=`.
pub open spec fn layout_name_tag() -> Seq<u8> {
    seq![108u8, 97, 121, 111, 117, 116, 78, 97, 109, 101, 61]
}

/// A layout name as stored: kept when it is UTF-8 of at most 32 bytes, else empty.
pub open spec fn layout_text(v: Seq<u8>) -> Seq<u8> {
    if vstd::utf8::valid_utf8(v) {
        crate::text::fit_bytes(v, 32)
    } else {
        Seq::empty()
    }
}

/// Instance label as stored: the first label's characters, each kept while it fits 32 bytes.
pub open spec fn instance_label(owner: Seq<u8>) -> Seq<u8> {
    name_push_all(Seq::empty(), first_label(owner), 32)
}

pub open spec fn cpush<T>(s: Seq<T>, x: T, cap: nat) -> Seq<T> {
    if s.len() < cap {
        s.push(x)
    } else {
        s
    }
}

/// What the record pass collects: SRV targets (target, port, label), labels tagged BigFred
/// by TXT, layout names by label, and A records (owner, address).
pub struct ScanAcc {
    pub srvs: Seq<(Seq<u8>, u16, Seq<u8>)>,
    pub bigf: Seq<Seq<u8>>,
    pub lays: Seq<(Seq<u8>, Seq<u8>)>,
    pub addrs: Seq<(Seq<u8>, Seq<u8>)>,
}

pub open spec fn rec_effect(pkt: Seq<u8>, svc: Seq<u8>, owner: Seq<u8>, rtype: u16, rdata: int, rdlen: int, st: ScanAcc, cap: nat) -> ScanAcc {
    if rtype == TYPE_SRV {
        if is_service_instance(owner, svc) {
            match be16_at(pkt, rdata + 4) {
                Some(port) => match read_name_spec(pkt, rdata + 6, Seq::empty(), None, 0) {
                    Some((target, _)) => ScanAcc { srvs: cpush(st.srvs, (target, port, instance_label(owner)), cap), ..st },
                    None => st,
                },
                None => st,
            }
        } else {
            st
        }
    } else if rtype == TYPE_TXT {
        if is_service_instance(owner, svc) {
            let (l, c, name) = txt_scan(pkt.subrange(rdata, rdata + rdlen), 0);
            let label = instance_label(owner);
            ScanAcc {
                bigf: if l && c && label.len() > 0 { cpush(st.bigf, label, cap) } else { st.bigf },
                lays: match name {
                    Some(v) => if label.len() > 0 { cpush(st.lays, (label, layout_text(v)), cap) } else { st.lays },
                    None => st.lays,
                },
                ..st
            }
        } else {
            st
        }
    } else if rtype == TYPE_A && rdlen >= 4 {
        ScanAcc { addrs: cpush(st.addrs, (owner, pkt.subrange(rdata, rdata + 4)), cap), ..st }
    } else {
        st
    }
}

/// Resource records from `off`, `k` at most; a malformed or overlong record ends the pass.
pub open spec fn rec_fold(pkt: Seq<u8>, svc: Seq<u8>, off: int, st: ScanAcc, k: nat, cap: nat) -> ScanAcc
    decreases k,
{
    if k == 0 {
        st
    } else {
        match read_name_spec(pkt, off, Seq::empty(), None, 0) {
            None => st,
            Some((owner, next)) => match be16_at(pkt, next) {
                None => st,
                Some(rtype) => match be16_at(pkt, next + 8) {
                    None => st,
                    Some(rdlen) => {
                        let rdata = next + 10;
                        if rdata + rdlen > pkt.len() {
                            st
                        } else {
                            rec_fold(pkt, svc, rdata + rdlen, rec_effect(pkt, svc, owner, rtype, rdata, rdlen as int, st, cap), (k - 1) as nat, cap)
                        }
                    },
                },
            },
        }
    }
}

/// Offset after `k` questions from `off` (`None` on a malformed name).
pub open spec fn skip_questions(pkt: Seq<u8>, off: int, k: nat) -> Option<int>
    decreases k,
{
    if k == 0 {
        Some(off)
    } else {
        match read_name_spec(pkt, off, Seq::empty(), None, 0) {
            None => None,
            Some((_, next)) => skip_questions(pkt, next + 4, (k - 1) as nat),
        }
    }
}

pub open spec fn find_addr(addrs: Seq<(Seq<u8>, Seq<u8>)>, name: Seq<u8>) -> Option<Seq<u8>>
    decreases addrs.len(),
{
    if addrs.len() == 0 {
        None
    } else if addrs[0].0 == name {
        Some(addrs[0].1)
    } else {
        find_addr(addrs.drop_first(), name)
    }
}

pub open spec fn find_layout(lays: Seq<(Seq<u8>, Seq<u8>)>, label: Seq<u8>) -> Seq<u8>
    decreases lays.len(),
{
    if lays.len() == 0 {
        Seq::empty()
    } else if lays[0].0 == label {
        lays[0].1
    } else {
        find_layout(lays.drop_first(), label)
    }
}

/// One server per SRV record, with the address of its target, its layout name, and the
/// BigFred tag for a WiThrottle station whose TXT marks it.
pub open spec fn assemble(srvs: Seq<(Seq<u8>, u16, Seq<u8>)>, st: ScanAcc, protocol: Protocol) -> Seq<ServerModel>
    decreases srvs.len(),
{
    if srvs.len() == 0 {
        Seq::empty()
    } else {
        let (target, port, label) = srvs.last();
        assemble(srvs.drop_last(), st, protocol).push(
            ServerModel {
                label,
                layout_name: find_layout(st.lays, label),
                port,
                ipv4: find_addr(st.addrs, target),
                protocol: if protocol == Protocol::WiThrottle && st.bigf.contains(label) {
                    Protocol::BigFred
                } else {
                    protocol
                },
            },
        )
    }
}

pub open spec fn empty_acc() -> ScanAcc {
    ScanAcc { srvs: Seq::empty(), bigf: Seq::empty(), lays: Seq::empty(), addrs: Seq::empty() }
}

/// Servers found in an mDNS response for `protocol`'s service, at most `cap`.
pub open spec fn servers_spec(pkt: Seq<u8>, protocol: Protocol, cap: nat) -> Seq<ServerModel> {
    match be16_at(pkt, 4) {
        None => Seq::empty(),
        Some(qd) => {
            let an = match be16_at(pkt, 6) { Some(v) => v, None => 0 };
            let ns = match be16_at(pkt, 8) { Some(v) => v, None => 0 };
            let ar = match be16_at(pkt, 10) { Some(v) => v, None => 0 };
            match skip_questions(pkt, 12, qd as nat) {
                None => Seq::empty(),
                Some(off) => {
                    let st = rec_fold(pkt, service_bytes(protocol), off, empty_acc(), (an + ns + ar) as nat, cap);
                    assemble(st.srvs, st, protocol)
                },
            }
        },
    }
}

} // verus!

verus! {

fn is_service_instance_exec(owner: &[u8], svc: &[u8]) -> (r: bool)
    ensures
        r == is_service_instance(owner@, svc@),
{
    let n = owner.len();
    let k = svc.len();
    if n < k || n - k < 2 {
        return false;
    }
    let split = n - k;
    if owner[split - 1] != 46 {
        return false;
    }
    let ghost tail = owner@.skip(split as int);
    let mut i: usize = 0;
    while i < k
        invariant
            n == owner@.len(),
            k == svc@.len(),
            split == n - k,
            i <= k,
            tail == owner@.skip(split as int),
            forall|j: int| 0 <= j < i ==> #[trigger] tail[j] < 128 && ascii_lower(tail[j]) == ascii_lower(svc@[j]),
        decreases k - i,
    {
        let a = owner[split + i];
        let b = svc[i];
        let la: u8 = if a >= 65 && a <= 90 {
            a + 32
        } else {
            a
        };
        let lb: u8 = if b >= 65 && b <= 90 {
            b + 32
        } else {
            b
        };
        assert(tail[i as int] == a);
        if a >= 128 || la != lb {
            proof {
                if is_service_instance(owner@, svc@) {
                    assert(owner@[split + i] < 128);
                }
            }
            return false;
        }
        assert(ascii_lower(tail[i as int]) == ascii_lower(svc@[i as int]));
        i = i + 1;
    }
    assert(ascii_ci_eq(tail, svc@));
    assert forall|j: int| split <= j < n implies #[trigger] owner@[j] < 128 by {
        assert(owner@[j] == tail[j - split]);
    }
    true
}

pub open spec fn txt_join(a: (bool, bool, Option<Seq<u8>>), b: (bool, bool, Option<Seq<u8>>)) -> (bool, bool, Option<Seq<u8>>) {
    (a.0 || b.0, a.1 || b.1, if a.2 is Some { a.2 } else { b.2 })
}

fn txt_scan_exec(r: &[u8]) -> (out: (bool, bool, Option<Vec<u8>>))
    ensures
        ({
            let (l, c, name) = txt_scan(r@, 0);
            out.0 == l && out.1 == c && match name {
                Some(v) => out.2 matches Some(x) && x@ == v,
                None => out.2 is None,
            }
        }),
{
    let lid: Vec<u8> = vec![108u8, 97, 121, 111, 117, 116, 73, 100, 61];
    assert(lid@ =~= layout_id_tag());
    let sid: Vec<u8> = vec![99u8, 111, 109, 109, 97, 110, 100, 83, 116, 97, 116, 105, 111, 110, 73, 100, 61];
    assert(sid@ =~= station_id_tag());
    let lname: Vec<u8> = vec![108u8, 97, 121, 111, 117, 116, 78, 97, 109, 101, 61];
    assert(lname@ =~= layout_name_tag());
    let len = r.len();
    let mut l = false;
    let mut c = false;
    let mut name: Option<Vec<u8>> = None;
    let mut i: usize = 0;
    while i < len
        invariant
            len == r@.len(),
            i <= len,
            lid@ == layout_id_tag(),
            sid@ == station_id_tag(),
            lname@ == layout_name_tag(),
            txt_scan(r@, 0) == txt_join(
                (l, c, match name {
                    Some(x) => Some(x@),
                    None => None,
                }),
                txt_scan(r@, i as int),
            ),
        decreases len - i,
    {
        let n = r[i] as usize;
        let s = i + 1;
        if n > len - s {
            return (l, c, name);
        }
        let chunk = crate::text::copy_range(r, s, s + n);
        let is_l = crate::text::matches_at(chunk.as_slice(), lid.as_slice(), 0);
        let is_c = crate::text::matches_at(chunk.as_slice(), sid.as_slice(), 0);
        let is_n = crate::text::matches_at(chunk.as_slice(), lname.as_slice(), 0);
        l = l || is_l;
        c = c || is_c;
        if name.is_none() && is_n {
            let v = crate::text::copy_range(chunk.as_slice(), 11, chunk.len());
            assert(v@ =~= chunk@.skip(11));
            name = Some(v);
        }
        i = s + n;
    }
    (l, c, name)
}

} // verus!

verus! {

/// Where a name read from a packet ends lies inside the packet.
proof fn lemma_read_name_end(pkt: Seq<u8>, off: int, name: Seq<u8>, next: Option<int>, jumps: int)
    requires
        next matches Some(x) ==> 0 <= x <= pkt.len(),
    ensures
        read_name_spec(pkt, off, name, next, jumps) matches Some((_, o)) ==> 0 <= o <= pkt.len(),
    decreases 17 - jumps, pkt.len() + 1 - off,
{
    if off < 0 || off >= pkt.len() || jumps < 0 || jumps > 16 {
    } else {
        let len = pkt[off];
        if len == 0 {
        } else if len & 0xc0 == 0xc0 {
            if off + 1 >= pkt.len() || jumps + 1 > 16 {
            } else {
                let ptr = ((len & 0x3f) as int) * 256 + pkt[off + 1] as int;
                lemma_read_name_end(pkt, ptr, name, if next is None { Some(off + 2) } else { next }, jumps + 1);
            }
        } else if off + 1 + len as int > pkt.len() {
        } else {
            let n1 = if name.len() > 0 { name_push(name, 46, NAME_CAP as nat) } else { name };
            lemma_read_name_end(
                pkt,
                off + 1 + len as int,
                name_push_all(n1, pkt.subrange(off + 1, off + 1 + len as int), NAME_CAP as nat),
                next,
                jumps,
            );
        }
    }
}

/// Reads the name at `off` and gives where it ends, which lies inside the packet.
fn read_name_in(pkt: &[u8], off: usize) -> (r: Option<(Vec<u8>, usize)>)
    ensures
        match read_name_spec(pkt@, off as int, Seq::empty(), None, 0) {
            Some((n, o)) => r matches Some((rn, ro)) && rn@ == n && ro == o && ro <= pkt@.len(),
            None => r is None,
        },
{
    proof {
        lemma_read_name_end(pkt@, off as int, Seq::empty(), None, 0);
    }
    read_name(pkt, off)
}

struct SrvRec {
    target: Vec<u8>,
    port: u16,
    label: Vec<u8>,
}

struct NamedBytes {
    name: Vec<u8>,
    value: Vec<u8>,
}

struct AddrRec {
    name: Vec<u8>,
    ip: [u8; 4],
}

struct ScanState {
    srvs: Vec<SrvRec>,
    bigf: Vec<Vec<u8>>,
    lays: Vec<NamedBytes>,
    addrs: Vec<AddrRec>,
}

spec fn addr_view(a: AddrRec) -> (Seq<u8>, Seq<u8>) {
    (a.name@, a.ip@)
}

spec fn srv_view(r: SrvRec) -> (Seq<u8>, u16, Seq<u8>) {
    (r.target@, r.port, r.label@)
}

spec fn named_view(p: NamedBytes) -> (Seq<u8>, Seq<u8>) {
    (p.name@, p.value@)
}

spec fn bytes_view(v: Vec<u8>) -> Seq<u8> {
    v@
}

spec fn scan_view(s: ScanState) -> ScanAcc {
    ScanAcc {
        srvs: s.srvs@.map_values(|r: SrvRec| srv_view(r)),
        bigf: s.bigf@.map_values(|v: Vec<u8>| bytes_view(v)),
        lays: s.lays@.map_values(|p: NamedBytes| named_view(p)),
        addrs: s.addrs@.map_values(|a: AddrRec| addr_view(a)),
    }
}

/// The instance label of an owner name.
fn instance_label_exec(owner: &[u8]) -> (r: Vec<u8>)
    ensures
        r@ == instance_label(owner@),
{
    let dot: Vec<u8> = vec![46u8];
    assert(dot@ =~= seq![46u8]);
    proof {
        crate::text::lemma_find_from_facts(owner@, seq![46u8], 0);
    }
    let cut = match crate::text::find_bytes(owner, dot.as_slice(), 0) {
        Some(p) => p,
        None => owner.len(),
    };
    let first = crate::text::copy_range(owner, 0, cut);
    assert(first@ =~= first_label(owner@));
    let mut name: Vec<u8> = Vec::new();
    let mut name_len: usize = 0;
    assert(name@ =~= Seq::<u8>::empty());
    push_all_bounded(&mut name, &mut name_len, first.as_slice(), 32);
    name
}

/// A layout name as stored.
fn layout_text_exec(v: &[u8]) -> (r: Vec<u8>)
    ensures
        r@ == layout_text(v@),
{
    if crate::text::is_utf8(v) {
        crate::text::bounded_bytes(v, 32)
    } else {
        Vec::new()
    }
}

fn push_srv(v: &mut Vec<SrvRec>, x: SrvRec, cap: usize)
    ensures
        final(v)@.map_values(|r: SrvRec| srv_view(r)) == cpush(old(v)@.map_values(|r: SrvRec| srv_view(r)), srv_view(x), cap as nat),
{
    if v.len() < cap {
        let ghost o = v@;
        v.push(x);
        assert(v@.map_values(|r: SrvRec| srv_view(r)) =~= o.map_values(|r: SrvRec| srv_view(r)).push(srv_view(x)));
    }
}

fn push_named(v: &mut Vec<NamedBytes>, x: NamedBytes, cap: usize)
    ensures
        final(v)@.map_values(|p: NamedBytes| named_view(p)) == cpush(old(v)@.map_values(|p: NamedBytes| named_view(p)), named_view(x), cap as nat),
{
    if v.len() < cap {
        let ghost o = v@;
        v.push(x);
        assert(v@.map_values(|p: NamedBytes| named_view(p)) =~= o.map_values(|p: NamedBytes| named_view(p)).push(named_view(x)));
    }
}

fn push_addr(v: &mut Vec<AddrRec>, x: AddrRec, cap: usize)
    ensures
        final(v)@.map_values(|a: AddrRec| addr_view(a)) == cpush(old(v)@.map_values(|a: AddrRec| addr_view(a)), addr_view(x), cap as nat),
{
    if v.len() < cap {
        let ghost o = v@;
        v.push(x);
        assert(v@.map_values(|a: AddrRec| addr_view(a)) =~= o.map_values(|a: AddrRec| addr_view(a)).push(addr_view(x)));
    }
}

fn push_label(v: &mut Vec<Vec<u8>>, x: Vec<u8>, cap: usize)
    ensures
        final(v)@.map_values(|w: Vec<u8>| bytes_view(w)) == cpush(old(v)@.map_values(|w: Vec<u8>| bytes_view(w)), x@, cap as nat),
{
    if v.len() < cap {
        let ghost o = v@;
        v.push(x);
        assert(v@.map_values(|w: Vec<u8>| bytes_view(w)) =~= o.map_values(|w: Vec<u8>| bytes_view(w)).push(bytes_view(x)));
    }
}

} // verus!

verus! {

/// What one resource record adds to the collected state.
fn apply_record(
    pkt: &[u8],
    svc: &[u8],
    owner: Vec<u8>,
    rtype: u16,
    rdata: usize,
    rdlen: usize,
    st: &mut ScanState,
    cap: usize,
)
    requires
        rdata + rdlen <= pkt@.len(),
    ensures
        scan_view(*final(st)) == rec_effect(pkt@, svc@, owner@, rtype, rdata as int, rdlen as int, scan_view(*old(st)), cap as nat),
{
    let n = pkt.len();
    if rtype == TYPE_SRV {
        if is_service_instance_exec(owner.as_slice(), svc) {
            let port = if n - rdata >= 6 {
                be16(pkt, rdata + 4)
            } else {
                None
            };
            match port {
                Some(p) => {
                    match read_name(pkt, rdata + 6) {
                        Some((target, _)) => {
                            let label = instance_label_exec(owner.as_slice());
                            push_srv(&mut st.srvs, SrvRec { target, port: p, label }, cap);
                        },
                        None => {},
                    }
                },
                None => {},
            }
        }
    } else if rtype == TYPE_TXT {
        if is_service_instance_exec(owner.as_slice(), svc) {
            let rd = crate::text::copy_range(pkt, rdata, rdata + rdlen);
            let (l, c, name) = txt_scan_exec(rd.as_slice());
            let label = instance_label_exec(owner.as_slice());
            if l && c && label.len() > 0 {
                let lc = crate::text::copy_range(label.as_slice(), 0, label.len());
                assert(lc@ =~= label@);
                push_label(&mut st.bigf, lc, cap);
            }
            match name {
                Some(v) => {
                    if label.len() > 0 {
                        let value = layout_text_exec(v.as_slice());
                        push_named(&mut st.lays, NamedBytes { name: label, value }, cap);
                    }
                },
                None => {},
            }
        }
    } else if rtype == TYPE_A && rdlen >= 4 {
        let mut ip: [u8; 4] = [0u8; 4];
        ip[0] = pkt[rdata];
        ip[1] = pkt[rdata + 1];
        ip[2] = pkt[rdata + 2];
        ip[3] = pkt[rdata + 3];
        assert(ip@ =~= pkt@.subrange(rdata as int, rdata + 4));
        push_addr(&mut st.addrs, AddrRec { name: owner, ip }, cap);
    }
}

} // verus!

verus! {

/// The record pass over `total` resource records from `off0`.
fn scan_records(pkt: &[u8], svc: &[u8], off0: usize, total: u32, cap: usize) -> (r: ScanState)
    ensures
        scan_view(r) == rec_fold(pkt@, svc@, off0 as int, empty_acc(), total as nat, cap as nat),
{
    let mut st = ScanState { srvs: Vec::new(), bigf: Vec::new(), lays: Vec::new(), addrs: Vec::new() };
    assert(scan_view(st).srvs =~= Seq::<(Seq<u8>, u16, Seq<u8>)>::empty());
    assert(scan_view(st).bigf =~= Seq::<Seq<u8>>::empty());
    assert(scan_view(st).lays =~= Seq::<(Seq<u8>, Seq<u8>)>::empty());
    assert(scan_view(st).addrs =~= Seq::<(Seq<u8>, Seq<u8>)>::empty());
    assert(scan_view(st) == empty_acc());
    let n = pkt.len();
    let mut off = off0;
    let mut i: u32 = 0;
    while i < total
        invariant
            n == pkt@.len(),
            i <= total,
            rec_fold(pkt@, svc@, off0 as int, empty_acc(), total as nat, cap as nat) == rec_fold(
                pkt@,
                svc@,
                off as int,
                scan_view(st),
                (total - i) as nat,
                cap as nat,
            ),
        decreases total - i,
    {
        let (owner, next) = match read_name_in(pkt, off) {
            Some(v) => v,
            None => {
                return st;
            },
        };
        if next >= n || n - next < 10 {
            return st;
        }
        let rtype = match be16(pkt, next) {
            Some(t) => t,
            None => {
                return st;
            },
        };
        let rdlen = match be16(pkt, next + 8) {
            Some(v) => v as usize,
            None => {
                return st;
            },
        };
        let rdata = next + 10;
        if rdlen > n - rdata {
            return st;
        }
        apply_record(pkt, svc, owner, rtype, rdata, rdlen, &mut st, cap);
        off = rdata + rdlen;
        i = i + 1;
    }
    st
}

fn find_addr_exec(addrs: &Vec<AddrRec>, name: &[u8]) -> (r: Option<[u8; 4]>)
    ensures
        match find_addr(addrs@.map_values(|a: AddrRec| addr_view(a)), name@) {
            Some(v) => r matches Some(ip) && ip@ == v,
            None => r is None,
        },
{
    let ghost view = addrs@.map_values(|a: AddrRec| addr_view(a));
    assert(view.skip(0) =~= view);
    let mut i: usize = 0;
    while i < addrs.len()
        invariant
            i <= addrs@.len(),
            view == addrs@.map_values(|a: AddrRec| addr_view(a)),
            find_addr(view, name@) == find_addr(view.skip(i as int), name@),
        decreases addrs@.len() - i,
    {
        assert(view.skip(i as int)[0] == view[i as int]);
        assert(view.skip(i as int).drop_first() =~= view.skip(i + 1));
        if crate::text::bytes_eq(addrs[i].name.as_slice(), name) {
            return Some(addrs[i].ip);
        }
        i = i + 1;
    }
    assert(view.skip(i as int) =~= Seq::<(Seq<u8>, Seq<u8>)>::empty());
    None
}

fn find_layout_exec(lays: &Vec<NamedBytes>, label: &[u8]) -> (r: Vec<u8>)
    ensures
        r@ == find_layout(lays@.map_values(|p: NamedBytes| named_view(p)), label@),
{
    let ghost view = lays@.map_values(|p: NamedBytes| named_view(p));
    assert(view.skip(0) =~= view);
    let mut i: usize = 0;
    while i < lays.len()
        invariant
            i <= lays@.len(),
            view == lays@.map_values(|p: NamedBytes| named_view(p)),
            find_layout(view, label@) == find_layout(view.skip(i as int), label@),
        decreases lays@.len() - i,
    {
        assert(view.skip(i as int)[0] == view[i as int]);
        assert(view.skip(i as int).drop_first() =~= view.skip(i + 1));
        if crate::text::bytes_eq(lays[i].name.as_slice(), label) {
            let v = &lays[i].value;
            return crate::text::copy_range(v.as_slice(), 0, v.len());
        }
        i = i + 1;
    }
    assert(view.skip(i as int) =~= Seq::<(Seq<u8>, Seq<u8>)>::empty());
    Vec::new()
}

fn contains_label(bigf: &Vec<Vec<u8>>, label: &[u8]) -> (r: bool)
    ensures
        r == bigf@.map_values(|w: Vec<u8>| bytes_view(w)).contains(label@),
{
    let ghost view = bigf@.map_values(|w: Vec<u8>| bytes_view(w));
    let mut i: usize = 0;
    while i < bigf.len()
        invariant
            i <= bigf@.len(),
            view == bigf@.map_values(|w: Vec<u8>| bytes_view(w)),
            forall|j: int| 0 <= j < i ==> view[j] != label@,
        decreases bigf@.len() - i,
    {
        if crate::text::bytes_eq(bigf[i].as_slice(), label) {
            assert(view[i as int] == label@);
            return true;
        }
        i = i + 1;
    }
    false
}

/// One server per collected SRV record.
fn assemble_exec(st: &ScanState, protocol: Protocol) -> (r: Vec<WitServer>)
    ensures
        servers_view(r@) == assemble(scan_view(*st).srvs, scan_view(*st), protocol),
{
    let ghost acc = scan_view(*st);
    let mut out: Vec<WitServer> = Vec::new();
    let mut i: usize = 0;
    assert(servers_view(out@) =~= assemble(acc.srvs.take(0), acc, protocol));
    while i < st.srvs.len()
        invariant
            i <= st.srvs@.len(),
            acc == scan_view(*st),
            servers_view(out@) == assemble(acc.srvs.take(i as int), acc, protocol),
        decreases st.srvs@.len() - i,
    {
        let rec = &st.srvs[i];
        assert(acc.srvs[i as int] == srv_view(*rec));
        let ipv4 = find_addr_exec(&st.addrs, rec.target.as_slice());
        let layout_name = find_layout_exec(&st.lays, rec.label.as_slice());
        let tagged = if protocol == Protocol::WiThrottle && contains_label(&st.bigf, rec.label.as_slice()) {
            Protocol::BigFred
        } else {
            protocol
        };
        let label = crate::text::copy_range(rec.label.as_slice(), 0, rec.label.len());
        let w = WitServer { label, layout_name, port: rec.port, ipv4, protocol: tagged };
        assert(acc.srvs.take(i + 1).last() == srv_view(*rec));
        assert(w@.label == rec.label@);
        assert(w@.layout_name == find_layout(acc.lays, rec.label@));
        assert(w@.ipv4 == find_addr(acc.addrs, rec.target@));
        let ghost before = out@;
        out.push(w);
        assert(acc.srvs.take(i + 1).drop_last() =~= acc.srvs.take(i as int));
        assert(servers_view(out@) =~= servers_view(before).push(w@));
        i = i + 1;
    }
    assert(acc.srvs.take(i as int) =~= acc.srvs);
    out
}

/// Parses a response and correlates servers of `protocol`'s mDNS service, at most `N`
/// of them. A WiThrottle station whose TXT carries both `layoutId=` and
/// `commandStationId=` is tagged BigFred.
pub fn collect_servers<const N: usize>(pkt: &[u8], protocol: Protocol) -> (r: Vec<WitServer>)
    ensures
        servers_view(r@) == servers_spec(pkt@, protocol, N as nat),
{
    let qd = match be16(pkt, 4) {
        Some(v) => v,
        None => {
            let out: Vec<WitServer> = Vec::new();
            assert(servers_view(out@) =~= Seq::<ServerModel>::empty());
            return out;
        },
    };
    let an: u16 = match be16(pkt, 6) {
        Some(v) => v,
        None => 0,
    };
    let ns: u16 = match be16(pkt, 8) {
        Some(v) => v,
        None => 0,
    };
    let ar: u16 = match be16(pkt, 10) {
        Some(v) => v,
        None => 0,
    };
    let total: u32 = an as u32 + ns as u32 + ar as u32;
    let n = pkt.len();
    let svc = service_name(protocol);
    let none: Vec<WitServer> = Vec::new();
    assert(servers_view(none@) =~= Seq::<ServerModel>::empty());
    assert(assemble(Seq::empty(), empty_acc(), protocol) == servers_view(none@));
    let mut off: usize = 12;
    let mut q: u16 = 0;
    while q < qd
        invariant
            n == pkt@.len(),
            q <= qd,
            servers_view(none@) == Seq::<ServerModel>::empty(),
            be16_at(pkt@, 4) == Some(qd),
            be16_at(pkt@, 6) == (if be16_at(pkt@, 6) is Some { Some(an) } else { None::<u16> }),
            be16_at(pkt@, 8) == (if be16_at(pkt@, 8) is Some { Some(ns) } else { None::<u16> }),
            be16_at(pkt@, 10) == (if be16_at(pkt@, 10) is Some { Some(ar) } else { None::<u16> }),
            be16_at(pkt@, 6) is None ==> an == 0,
            be16_at(pkt@, 8) is None ==> ns == 0,
            be16_at(pkt@, 10) is None ==> ar == 0,
            total == an + ns + ar,
            svc@ == service_bytes(protocol),
            assemble(Seq::empty(), empty_acc(), protocol) == servers_view(none@),
            skip_questions(pkt@, 12, qd as nat) == skip_questions(pkt@, off as int, (qd - q) as nat),
        decreases qd - q,
    {
        let next = match read_name_in(pkt, off) {
            Some((_, e)) => e,
            None => {
                return none;
            },
        };
        if n - next < 4 {
            proof {
                let o = next + 4;
                assert(o >= pkt@.len());
                if qd - q - 1 > 0 {
                    assert(skip_questions(pkt@, o, (qd - q - 1) as nat) is None);
                } else {
                    assert(skip_questions(pkt@, o, 0) == Some(o));
                    if total > 0 {
                        assert(rec_fold(pkt@, svc@, o, empty_acc(), total as nat, N as nat) == empty_acc());
                    }
                }
            }
            return none;
        }
        off = next + 4;
        q = q + 1;
    }
    let st = scan_records(pkt, svc.as_slice(), off, total, N);
    assemble_exec(&st, protocol)
}

} // verus!

verus! {

/// The servers of `s` that are (`big`) or are not (`!big`) BigFred stations, in order.
pub open spec fn bigfred_part(s: Seq<ServerModel>, big: bool) -> Seq<ServerModel>
    decreases s.len(),
{
    if s.len() == 0 {
        Seq::empty()
    } else {
        let rest = bigfred_part(s.drop_last(), big);
        if (s.last().protocol == Protocol::BigFred) == big {
            rest.push(s.last())
        } else {
            rest
        }
    }
}

/// Stable partition: BigFred stations first, each group keeping its input order.
pub fn sort_bigfred_first(servers: &mut Vec<WitServer>)
    ensures
        servers_view(final(servers)@) == bigfred_part(servers_view(old(servers)@), true) + bigfred_part(
            servers_view(old(servers)@),
            false,
        ),
{
    let mut src: Vec<WitServer> = Vec::new();
    std::mem::swap(servers, &mut src);
    let count = src.len();
    let ghost orig = src@;
    assert(orig.len() == count);
    let mut big: Vec<WitServer> = Vec::new();
    let mut rest: Vec<WitServer> = Vec::new();
    let mut k: usize = 0;
    assert(servers_view(orig.take(0)) =~= Seq::<ServerModel>::empty());
    assert(servers_view(big@) =~= Seq::<ServerModel>::empty());
    assert(servers_view(rest@) =~= Seq::<ServerModel>::empty());
    while src.len() > 0
        invariant
            k <= orig.len() <= usize::MAX,
            src@ == orig.skip(k as int),
            servers_view(big@) == bigfred_part(servers_view(orig.take(k as int)), true),
            servers_view(rest@) == bigfred_part(servers_view(orig.take(k as int)), false),
        decreases src@.len(),
    {
        assert(orig.skip(k as int).len() == orig.len() - k);
        let x = src.remove(0);
        assert(x == orig[k as int]);
        assert(servers_view(orig.take(k + 1)) =~= servers_view(orig.take(k as int)).push(x@));
        assert(servers_view(orig.take(k + 1)).drop_last() =~= servers_view(orig.take(k as int)));
        let ghost b0 = big@;
        let ghost r0 = rest@;
        if x.protocol == Protocol::BigFred {
            big.push(x);
            assert(servers_view(big@) =~= servers_view(b0).push(x@));
        } else {
            rest.push(x);
            assert(servers_view(rest@) =~= servers_view(r0).push(x@));
        }
        assert(src@ =~= orig.skip(k + 1));
        k = k + 1;
    }
    assert(orig.take(k as int) =~= orig);
    let ghost b1 = big@;
    let ghost r1 = rest@;
    big.append(&mut rest);
    assert(servers_view(big@) =~= servers_view(b1) + servers_view(r1));
    *servers = big;
}

} // verus!

verus! {

proof fn lemma_cpush_bound<T>(s: Seq<T>, x: T, cap: nat)
    requires
        s.len() <= cap,
    ensures
        cpush(s, x, cap).len() <= cap,
{
}

proof fn lemma_rec_fold_bound(pkt: Seq<u8>, svc: Seq<u8>, off: int, st: ScanAcc, k: nat, cap: nat)
    requires
        st.srvs.len() <= cap,
    ensures
        rec_fold(pkt, svc, off, st, k, cap).srvs.len() <= cap,
    decreases k,
{
    if k > 0 {
        match read_name_spec(pkt, off, Seq::empty(), None, 0) {
            None => {},
            Some((owner, next)) => match be16_at(pkt, next) {
                None => {},
                Some(rtype) => match be16_at(pkt, next + 8) {
                    None => {},
                    Some(rdlen) => {
                        let rdata = next + 10;
                        if rdata + rdlen <= pkt.len() {
                            let st2 = rec_effect(pkt, svc, owner, rtype, rdata, rdlen as int, st, cap);
                            if rtype == TYPE_SRV && is_service_instance(owner, svc) {
                                match be16_at(pkt, rdata + 4) {
                                    Some(port) => match read_name_spec(pkt, rdata + 6, Seq::empty(), None, 0) {
                                        Some((target, _)) => lemma_cpush_bound(st.srvs, (target, port, instance_label(owner)), cap),
                                        None => {},
                                    },
                                    None => {},
                                }
                            }
                            assert(st2.srvs.len() <= cap);
                            lemma_rec_fold_bound(pkt, svc, rdata + rdlen, st2, (k - 1) as nat, cap);
                        }
                    },
                },
            },
        }
    }
}

proof fn lemma_assemble_len(srvs: Seq<(Seq<u8>, u16, Seq<u8>)>, st: ScanAcc, protocol: Protocol)
    ensures
        assemble(srvs, st, protocol).len() == srvs.len(),
    decreases srvs.len(),
{
    if srvs.len() > 0 {
        lemma_assemble_len(srvs.drop_last(), st, protocol);
    }
}

/// Discovery returns at most `cap` servers.
pub proof fn law_collect_servers_bounded(pkt: Seq<u8>, protocol: Protocol, cap: nat)
    ensures
        servers_spec(pkt, protocol, cap).len() <= cap,
{
    match be16_at(pkt, 4) {
        None => {},
        Some(qd) => {
            let an = match be16_at(pkt, 6) { Some(v) => v, None => 0 };
            let ns = match be16_at(pkt, 8) { Some(v) => v, None => 0 };
            let ar = match be16_at(pkt, 10) { Some(v) => v, None => 0 };
            match skip_questions(pkt, 12, qd as nat) {
                None => {},
                Some(off) => {
                    lemma_rec_fold_bound(pkt, service_bytes(protocol), off, empty_acc(), (an + ns + ar) as nat, cap);
                    let st = rec_fold(pkt, service_bytes(protocol), off, empty_acc(), (an + ns + ar) as nat, cap);
                    lemma_assemble_len(st.srvs, st, protocol);
                },
            }
        },
    }
}

proof fn lemma_bigfred_part(s: Seq<ServerModel>, big: bool)
    ensures
        forall|i: int| 0 <= i < bigfred_part(s, big).len() ==> ((#[trigger] bigfred_part(s, big)[i]).protocol == Protocol::BigFred) == big,
        bigfred_part(s, true).len() + bigfred_part(s, false).len() == s.len(),
    decreases s.len(),
{
    if s.len() > 0 {
        lemma_bigfred_part(s.drop_last(), big);
        lemma_bigfred_part(s.drop_last(), !big);
    }
}

/// After [`sort_bigfred_first`] every server is still there, and no BigFred station comes
/// after a station of another protocol.
pub proof fn law_sort_bigfred_first_groups(s: Seq<ServerModel>)
    ensures
        (bigfred_part(s, true) + bigfred_part(s, false)).len() == s.len(),
        forall|i: int, j: int|
            0 <= i < j < s.len() && (#[trigger] (bigfred_part(s, true) + bigfred_part(s, false))[j]).protocol
                == Protocol::BigFred ==> (#[trigger] (bigfred_part(s, true) + bigfred_part(s, false))[i]).protocol
                == Protocol::BigFred,
{
    lemma_bigfred_part(s, true);
    lemma_bigfred_part(s, false);
    let b = bigfred_part(s, true);
    let o = bigfred_part(s, false);
    assert forall|i: int, j: int|
        0 <= i < j < s.len() && (#[trigger] (b + o)[j]).protocol == Protocol::BigFred implies (#[trigger] (b
            + o)[i]).protocol == Protocol::BigFred by {
        if j >= b.len() {
            assert((b + o)[j] == o[j - b.len()]);
        }
        assert(i < b.len());
        assert((b + o)[i] == b[i]);
    }
}

} // verus!

verus! {

/// Appending characters that fit keeps them all.
proof fn lemma_name_push_all_fits(a: Seq<u8>, s: Seq<u8>, cap: nat)
    requires
        wire_len(a) + wire_len(s) <= cap,
    ensures
        name_push_all(a, s, cap) == a + s,
    decreases s.len(),
{
    if s.len() == 0 {
        assert(a + s =~= a);
    } else {
        let t = s.drop_last();
        crate::text::lemma_wire_len_append(t, seq![s.last()]);
        assert(t + seq![s.last()] =~= s);
        assert(wire_len(seq![s.last()]) == wire_width(s.last())) by {
            assert(seq![s.last()].drop_last() =~= Seq::<u8>::empty());
        }
        lemma_name_push_all_fits(a, t, cap);
        crate::text::lemma_wire_len_append(a, t);
        assert((a + t).push(s.last()) =~= a + s);
    }
}

/// One uncompressed label at `off` (length 1..=63) is read and reading goes on after it.
proof fn lemma_read_label(pkt: Seq<u8>, off: int, name: Seq<u8>)
    requires
        0 <= off < pkt.len(),
        1 <= pkt[off] < 64,
        off + 1 + pkt[off] <= pkt.len(),
    ensures
        read_name_spec(pkt, off, name, None, 0) == read_name_spec(
            pkt,
            off + 1 + pkt[off],
            name_push_all(
                if name.len() > 0 { name_push(name, 46, NAME_CAP as nat) } else { name },
                pkt.subrange(off + 1, off + 1 + pkt[off]),
                NAME_CAP as nat,
            ),
            None,
            0,
        ),
{
    let len = pkt[off];
    assert(len & 0xc0 != 0xc0) by (bit_vector)
        requires
            1 <= len < 64,
    ;
}

/// The zero byte ends a name.
proof fn lemma_read_end(pkt: Seq<u8>, off: int, name: Seq<u8>)
    requires
        0 <= off < pkt.len(),
        pkt[off] == 0,
    ensures
        read_name_spec(pkt, off, name, None, 0) == Some((name, off + 1)),
{
}

/// `find_from` finds the first occurrence.
proof fn lemma_find_first(s: Seq<u8>, pat: Seq<u8>, k: int)
    requires
        crate::text::is_at(s, pat, k),
        forall|j: int| 0 <= j < k ==> !crate::text::is_at(s, pat, j),
    ensures
        crate::text::find_from(s, pat, 0) == Some(k),
{
    crate::text::lemma_find_from_facts(s, pat, 0);
}

/// A host label cut at its first dot is the label itself when it holds no dot.
proof fn lemma_first_label_host_local(h: Seq<u8>)
    requires
        forall|i: int| 0 <= i < h.len() ==> h[i] != 46,
    ensures
        first_label(h.push(46u8) + local_label()) == h,
{
    let n = h.push(46u8) + local_label();
    assert(crate::text::is_at(n, seq![46u8], h.len() as int)) by {
        assert(n.subrange(h.len() as int, h.len() + 1int) =~= seq![46u8]);
    }
    assert forall|j: int| 0 <= j < h.len() implies !crate::text::is_at(n, seq![46u8], j) by {
        if crate::text::is_at(n, seq![46u8], j) {
            assert(n.subrange(j, j + 1)[0] == n[j]);
            assert(n[j] == h[j]);
        }
    }
    lemma_find_first(n, seq![46u8], h.len() as int);
    assert(n.take(h.len() as int) =~= h);
}

} // verus!

verus! {

/// The bytes of a two-byte big-endian field read back as its value.
proof fn lemma_be16_bytes(pkt: Seq<u8>, x: int, v: u16)
    requires
        0 <= x,
        x + 2 <= pkt.len(),
        pkt.subrange(x, x + 2) == be16_bytes(v),
    ensures
        be16_at(pkt, x) == Some(v),
{
    assert(pkt[x] == pkt.subrange(x, x + 2)[0]);
    assert(pkt[x + 1] == pkt.subrange(x, x + 2)[1]);
    assert((v / 256) as u8 as int == v / 256);
    assert((v % 256) as u8 as int == v % 256);
}

/// The name after reading the label at `off` onto `name`.
spec fn after_label(pkt: Seq<u8>, off: int, name: Seq<u8>) -> Seq<u8> {
    name_push_all(
        if name.len() > 0 { name_push(name, 46, NAME_CAP as nat) } else { name },
        pkt.subrange(off + 1, off + 1 + pkt[off]),
        NAME_CAP as nat,
    )
}

/// Reading `_longfred-ota._tcp.local` at `off` ends just after it.
proof fn lemma_read_ota_service(pkt: Seq<u8>, off: int, name: Seq<u8>)
    requires
        0 <= off,
        off + 26 <= pkt.len(),
        pkt.subrange(off, off + 26) == ota_service_name(),
    ensures
        read_name_spec(pkt, off, name, None, 0) is Some,
        read_name_spec(pkt, off, name, None, 0).unwrap().1 == off + 26,
{
    let s = ota_service_name();
    assert(pkt[off] == s[0] && s[0] == 13);
    assert(pkt[off + 14] == s[14] && s[14] == 4);
    assert(pkt[off + 19] == s[19] && s[19] == 5);
    assert(pkt[off + 25] == s[25] && s[25] == 0);
    lemma_read_label(pkt, off, name);
    let n1 = after_label(pkt, off, name);
    lemma_read_label(pkt, off + 14, n1);
    let n2 = after_label(pkt, off + 14, n1);
    lemma_read_label(pkt, off + 19, n2);
    let n3 = after_label(pkt, off + 19, n2);
    lemma_read_end(pkt, off + 25, n3);
}

/// Header and PTR record of an announcement.
#[verifier::rlimit(80)]
#[verifier::spinoff_prover]
proof fn lemma_announce_ptr(h: Seq<u8>, ip: Seq<u8>, port: u16)
    requires
        1 <= h.len() <= 32,
        ip.len() == 4,
    ensures
        ({
            let pkt = ota_announce_spec(h, ip, port);
            &&& pkt.len() == 148 + 4 * h.len()
            &&& be16_at(pkt, 6) == Some(3u16)
            &&& be16_at(pkt, 8) == Some(0u16)
            &&& be16_at(pkt, 10) == Some(0u16)
            &&& read_name_spec(pkt, 12, Seq::empty(), None, 0) is Some
            &&& read_name_spec(pkt, 12, Seq::empty(), None, 0).unwrap().1 == 38
            &&& be16_at(pkt, 38) == Some(12u16)
            &&& be16_at(pkt, 46) == Some((h.len() + 27) as u16)
        }),
{
    let l = h.len() as int;
    let pkt = ota_announce_spec(h, ip, port);
    assert(len_or_zero(l + 27) == (l + 27) as u16);
    assert(len_or_zero(l + 14) == (l + 14) as u16);
    assert(pkt.subrange(6, 8) =~= be16_bytes(3));
    assert(pkt.subrange(8, 10) =~= be16_bytes(0));
    assert(pkt.subrange(10, 12) =~= be16_bytes(0));
    lemma_be16_bytes(pkt, 6, 3);
    lemma_be16_bytes(pkt, 8, 0);
    lemma_be16_bytes(pkt, 10, 0);
    assert(pkt.subrange(12, 38) =~= ota_service_name());
    lemma_read_ota_service(pkt, 12, Seq::empty());
    assert(pkt.subrange(38, 40) =~= be16_bytes(12));
    lemma_be16_bytes(pkt, 38, 12);
    assert(pkt.subrange(46, 48) =~= be16_bytes((l + 27) as u16));
    lemma_be16_bytes(pkt, 46, (l + 27) as u16);
}

/// SRV record of an announcement.
#[verifier::rlimit(80)]
#[verifier::spinoff_prover]
proof fn lemma_announce_srv(h: Seq<u8>, ip: Seq<u8>, port: u16)
    requires
        1 <= h.len() <= 32,
        ip.len() == 4,
    ensures
        ({
            let pkt = ota_announce_spec(h, ip, port);
            let l = h.len() as int;
            &&& read_name_spec(pkt, 75 + l, Seq::empty(), None, 0) is Some
            &&& read_name_spec(pkt, 75 + l, Seq::empty(), None, 0).unwrap().1 == 102 + 2 * l
            &&& be16_at(pkt, 102 + 2 * l) == Some(33u16)
            &&& be16_at(pkt, 110 + 2 * l) == Some((l + 14) as u16)
            &&& be16_at(pkt, 116 + 2 * l) == Some(port)
        }),
{
    let l = h.len() as int;
    let pkt = ota_announce_spec(h, ip, port);
    assert(len_or_zero(l + 27) == (l + 27) as u16);
    assert(len_or_zero(l + 14) == (l + 14) as u16);
    let s0 = 75 + l;
    assert(pkt.subrange(s0, s0 + 1) =~= seq![l as u8]);
    assert(pkt[s0] == l);
    assert(pkt.subrange(s0 + 1 + l, s0 + 27 + l) =~= ota_service_name());
    lemma_read_label(pkt, s0, Seq::empty());
    lemma_read_ota_service(pkt, s0 + 1 + l, after_label(pkt, s0, Seq::empty()));
    let n0 = s0 + 27 + l;
    assert(pkt.subrange(n0, n0 + 2) =~= be16_bytes(33));
    lemma_be16_bytes(pkt, n0, 33);
    assert(pkt.subrange(n0 + 8, n0 + 10) =~= be16_bytes((l + 14) as u16));
    lemma_be16_bytes(pkt, n0 + 8, (l + 14) as u16);
    assert(pkt.subrange(n0 + 14, n0 + 16) =~= be16_bytes(port));
    lemma_be16_bytes(pkt, n0 + 14, port);
}

/// A record of an announcement.
#[verifier::rlimit(80)]
#[verifier::spinoff_prover]
proof fn lemma_announce_a(h: Seq<u8>, ip: Seq<u8>, port: u16)
    requires
        1 <= h.len() <= 32,
        wire_len(h) <= 32,
        ip.len() == 4,
    ensures
        ({
            let pkt = ota_announce_spec(h, ip, port);
            let l = h.len() as int;
            &&& read_name_spec(pkt, 126 + 3 * l, Seq::empty(), None, 0) == Some((h.push(46u8) + local_label(), 134 + 4 * l))
            &&& be16_at(pkt, 134 + 4 * l) == Some(1u16)
            &&& be16_at(pkt, 142 + 4 * l) == Some(4u16)
            &&& pkt.subrange(144 + 4 * l, 148 + 4 * l) == ip
        }),
{
    let l = h.len() as int;
    let pkt = ota_announce_spec(h, ip, port);
    assert(len_or_zero(l + 27) == (l + 27) as u16);
    assert(len_or_zero(l + 14) == (l + 14) as u16);
    let a0 = 126 + 3 * l;
    assert(pkt.subrange(a0, a0 + 8 + l) =~= host_local_name(h));
    assert(pkt[a0] == host_local_name(h)[0]);
    assert(pkt.subrange(a0 + 1, a0 + 1 + l) =~= h);
    assert(pkt[a0 + 1 + l] == host_local_name(h)[1 + l]);
    assert(pkt.subrange(a0 + 2 + l, a0 + 7 + l) =~= local_label());
    assert(pkt[a0 + 7 + l] == host_local_name(h)[7 + l]);
    lemma_read_label(pkt, a0, Seq::empty());
    lemma_name_push_all_fits(Seq::empty(), h, NAME_CAP as nat);
    assert(Seq::<u8>::empty() + h =~= h);
    lemma_read_label(pkt, a0 + 1 + l, h);
    assert(wire_len(h.push(46u8)) == wire_len(h) + 1) by {
        assert(h.push(46u8).drop_last() =~= h);
    }
    assert(name_push(h, 46, NAME_CAP as nat) == h.push(46u8));
    assert(wire_len(local_label()) == 5) by {
        reveal_with_fuel(wire_len, 6);
    }
    lemma_name_push_all_fits(h.push(46u8), local_label(), NAME_CAP as nat);
    lemma_read_end(pkt, a0 + 7 + l, h.push(46u8) + local_label());
    let e0 = a0 + 8 + l;
    assert(pkt.subrange(e0, e0 + 2) =~= be16_bytes(1));
    lemma_be16_bytes(pkt, e0, 1);
    assert(pkt.subrange(e0 + 8, e0 + 10) =~= be16_bytes(4));
    lemma_be16_bytes(pkt, e0 + 8, 4);
    assert(pkt.subrange(e0 + 10, e0 + 14) =~= ip);
}

/// What a handset announces for OTA updates is what discovery finds: one host with the
/// announced name, address and port (for a single-label host name that fits the stored
/// host name).
#[verifier::rlimit(80)]
#[verifier::spinoff_prover]
pub proof fn law_ota_announce_discovered(h: Seq<u8>, ip: Seq<u8>, port: u16, cap: nat)
    requires
        1 <= h.len(),
        wire_len(h) <= 32,
        forall|i: int| 0 <= i < h.len() ==> h[i] != 46,
        ip.len() == 4,
        cap >= 1,
    ensures
        ota_hosts_spec(ota_announce_spec(h, ip, port), cap) == seq![(h, ip, port)],
{
    crate::text::lemma_wire_len_bounds(h);
    let l = h.len() as int;
    lemma_announce_ptr(h, ip, port);
    lemma_announce_srv(h, ip, port);
    lemma_announce_a(h, ip, port);
    lemma_first_label_host_local(h);
    let pkt = ota_announce_spec(h, ip, port);
    let none = Seq::<(Seq<u8>, Seq<u8>, u16)>::empty();
    let one = seq![(h, ip, port)];
    assert(none.push((h, ip, port)) =~= one);
    assert(ota_fold(pkt, 148 + 4 * l, port, one, 0, cap) == one);
    assert(ota_fold(pkt, 126 + 3 * l, port, none, 1, cap) == one);
    assert(ota_fold(pkt, 75 + l, 80, none, 2, cap) == one);
    assert(ota_fold(pkt, 12, 80, none, 3, cap) == one);
}

} // verus!
