//! DNS messages as the ingress engine sees them, with EDNS(0), and their
//! uncompressed wire form.
use vstd::prelude::*;
use crate::icmppkt::{
    be16, be32, bytes_list_view, flatten, lemma_flatten_push, push_be16, push_be32, push_bytes, rd16,
    rd16_at, rd32, rd32_at,
};

verus! {

pub const NOERROR: u16 = 0;

pub const SERVFAIL: u16 = 2;

pub const REFUSED: u16 = 5;

pub const OPCODE_QUERY: u8 = 0;

/// Record type of the EDNS(0) pseudo-record.
pub const RR_OPT: u16 = 41;

/// EDNS option code of the name server identifier.
pub const EDNS_NSID: u16 = 3;

/// EDNS option code of the DNS cookie.
pub const EDNS_COOKIE: u16 = 10;

/// EDNS option code of an extended DNS error.
pub const EDNS_EDE: u16 = 15;

pub const EDE_OTHER: u16 = 0;

pub const EDE_PROHIBITED: u16 = 18;

pub const EDE_NO_REACHABLE_AUTHORITY: u16 = 22;

pub const EDE_NETWORK_ERROR: u16 = 23;

pub const EDE_NOT_AUTHORITATIVE: u16 = 20;

/// A question: name as labels, type, class.
#[derive(Debug)]
pub struct Question {
    pub qdomain: Vec<Vec<u8>>,
    pub qtype: u16,
    pub qclass: u16,
}

/// A resource record; its data is carried as it is on the wire.
#[derive(Debug)]
pub struct ResourceRecord {
    pub domain: Vec<Vec<u8>>,
    pub rrtype: u16,
    pub class: u16,
    pub ttl: u32,
    pub rdata: Vec<u8>,
}

/// One EDNS option.
#[derive(Debug)]
pub struct EdnsOption {
    pub code: u16,
    pub data: Vec<u8>,
}

/// The options of an EDNS(0) pseudo-record, in order.
#[derive(Debug)]
pub struct EdnsData {
    pub options: Vec<EdnsOption>,
}

/// A DNS message. `rcode` is the full response code: its low four bits go
/// in the header, the rest in the EDNS record.
#[derive(Debug)]
pub struct DNSPkt {
    pub qid: u16,
    pub rd: bool,
    pub tc: bool,
    pub aa: bool,
    pub qr: bool,
    pub opcode: u8,
    pub cd: bool,
    pub ad: bool,
    pub ra: bool,
    pub rcode: u16,
    pub bufsize: u16,
    pub edns_ver: Option<u8>,
    pub edns_do: bool,
    pub question: Vec<Question>,
    pub answer: Vec<ResourceRecord>,
    pub nameserver: Vec<ResourceRecord>,
    pub additional: Vec<ResourceRecord>,
    pub edns: Option<EdnsData>,
}

pub open spec fn question_view(q: Question) -> (Seq<Seq<u8>>, u16, u16) {
    (bytes_list_view(q.qdomain@), q.qtype, q.qclass)
}

pub open spec fn rr_view(r: ResourceRecord) -> (Seq<Seq<u8>>, u16, u16, u32, Seq<u8>) {
    (bytes_list_view(r.domain@), r.rrtype, r.class, r.ttl, r.rdata@)
}

pub open spec fn rrs_view(v: Seq<ResourceRecord>) -> Seq<(Seq<Seq<u8>>, u16, u16, u32, Seq<u8>)> {
    v.map_values(|r: ResourceRecord| rr_view(r))
}

pub open spec fn questions_view(v: Seq<Question>) -> Seq<(Seq<Seq<u8>>, u16, u16)> {
    v.map_values(|q: Question| question_view(q))
}

pub open spec fn edns_opts_view(v: Seq<EdnsOption>) -> Seq<(u16, Seq<u8>)> {
    v.map_values(|o: EdnsOption| (o.code, o.data@))
}

impl View for EdnsData {
    type V = Seq<(u16, Seq<u8>)>;

    open spec fn view(&self) -> Seq<(u16, Seq<u8>)> {
        edns_opts_view(self.options@)
    }
}

pub open spec fn edns_view(e: Option<EdnsData>) -> Option<Seq<(u16, Seq<u8>)>> {
    match e {
        Some(d) => Some(d@),
        None => None,
    }
}

/// A name in wire form: each label prefixed by its length, then a zero.
pub open spec fn enc_labels(ls: Seq<Seq<u8>>) -> Seq<u8> {
    flatten(ls.map_values(|l: Seq<u8>| seq![l.len() as u8] + l)) + seq![0u8]
}

pub open spec fn enc_question(q: (Seq<Seq<u8>>, u16, u16)) -> Seq<u8> {
    enc_labels(q.0) + be16(q.1) + be16(q.2)
}

pub open spec fn enc_rr(r: (Seq<Seq<u8>>, u16, u16, u32, Seq<u8>)) -> Seq<u8> {
    enc_labels(r.0) + be16(r.1) + be16(r.2) + be32(r.3) + be16(r.4.len() as u16) + r.4
}

pub open spec fn enc_edns_opt(o: (u16, Seq<u8>)) -> Seq<u8> {
    be16(o.0) + be16(o.1.len() as u16) + o.1
}

pub open spec fn enc_questions(qs: Seq<(Seq<Seq<u8>>, u16, u16)>) -> Seq<u8> {
    flatten(qs.map_values(|q: (Seq<Seq<u8>>, u16, u16)| enc_question(q)))
}

pub open spec fn enc_rrs(rs: Seq<(Seq<Seq<u8>>, u16, u16, u32, Seq<u8>)>) -> Seq<u8> {
    flatten(rs.map_values(|r: (Seq<Seq<u8>>, u16, u16, u32, Seq<u8>)| enc_rr(r)))
}

pub open spec fn enc_edns_opts(os: Seq<(u16, Seq<u8>)>) -> Seq<u8> {
    flatten(os.map_values(|o: (u16, Seq<u8>)| enc_edns_opt(o)))
}

pub open spec fn bit(b: bool, v: int) -> int {
    if b {
        v
    } else {
        0
    }
}

/// First flag octet: QR, opcode, AA, TC, RD.
pub open spec fn flags1(p: &DNSPkt) -> u8 {
    (bit(p.qr, 128) + (p.opcode % 16) as int * 8 + bit(p.aa, 4) + bit(p.tc, 2) + bit(p.rd, 1)) as u8
}

/// Second flag octet: RA, AD, CD and the low bits of the response code.
pub open spec fn flags2(p: &DNSPkt) -> u8 {
    (bit(p.ra, 128) + bit(p.ad, 32) + bit(p.cd, 16) + (p.rcode % 16) as int) as u8
}

/// The EDNS record when the message has one: root name, type OPT, the
/// buffer size as class, extended code, version and DO bit as TTL.
pub open spec fn enc_opt_rr(p: &DNSPkt) -> Seq<u8> {
    match &p.edns {
        None => Seq::empty(),
        Some(e) => {
            let ver = match p.edns_ver {
                Some(v) => v as int,
                None => 0,
            };
            let ttl = ((p.rcode / 16) % 256) as int * 0x100_0000 + ver * 0x1_0000 + bit(
                p.edns_do,
                0x8000,
            );
            seq![0u8] + be16(RR_OPT) + be16(p.bufsize) + be32(ttl as u32) + be16(
                enc_edns_opts(e@).len() as u16,
            ) + enc_edns_opts(e@)
        },
    }
}

/// A count field: the count modulo 2^16.
pub open spec fn count16(n: int) -> u16 {
    (n % 0x1_0000) as u16
}

/// Identifier, flags and the four section counts; the EDNS record counts as
/// an additional record.
pub open spec fn enc_header(p: &DNSPkt) -> Seq<u8> {
    let arcount = p.additional@.len() + if p.edns is Some {
        1int
    } else {
        0
    };
    be16(p.qid) + seq![flags1(p), flags2(p)] + be16(count16(p.question@.len() as int)) + be16(
        count16(p.answer@.len() as int),
    ) + be16(count16(p.nameserver@.len() as int)) + be16(count16(arcount))
}

/// The wire form of a message, without name compression.
pub open spec fn enc_pkt(p: &DNSPkt) -> Seq<u8> {
    enc_header(p) + enc_questions(
        questions_view(p.question@),
    ) + enc_rrs(rrs_view(p.answer@)) + enc_rrs(rrs_view(p.nameserver@)) + enc_rrs(
        rrs_view(p.additional@),
    ) + enc_opt_rr(p)
}

fn write_labels(out: &mut Vec<u8>, ls: &Vec<Vec<u8>>)
    ensures
        final(out)@ == old(out)@ + enc_labels(bytes_list_view(ls@)),
{
    let ghost f = |l: Seq<u8>| seq![l.len() as u8] + l;
    let mut i: usize = 0;
    while i < ls.len()
        invariant
            i <= ls@.len(),
            f == (|l: Seq<u8>| seq![l.len() as u8] + l),
            out@ == old(out)@ + flatten(bytes_list_view(ls@.take(i as int)).map_values(f)),
        decreases ls@.len() - i,
    {
        let l = &ls[i];
        let ghost before = out@;
        out.push(#[verifier::truncate] (l.len() as u8));
        push_bytes(out, l.as_slice(), 0, l.len());
        proof {
            assert(l@.subrange(0, l@.len() as int) =~= l@);
            let prev = bytes_list_view(ls@.take(i as int)).map_values(f);
            lemma_flatten_push(prev, f(l@));
            assert(bytes_list_view(ls@.take(i + 1)).map_values(f) =~= prev.push(f(l@)));
            assert(out@ =~= old(out)@ + flatten(prev.push(f(l@))));
        }
        i = i + 1;
    }
    out.push(0);
    assert(ls@.take(ls@.len() as int) =~= ls@);
    assert(final(out)@ =~= old(out)@ + enc_labels(bytes_list_view(ls@)));
}

fn write_question(out: &mut Vec<u8>, q: &Question)
    ensures
        final(out)@ == old(out)@ + enc_question(question_view(*q)),
{
    write_labels(out, &q.qdomain);
    push_be16(out, q.qtype);
    push_be16(out, q.qclass);
    assert(final(out)@ =~= old(out)@ + enc_question(question_view(*q)));
}

fn write_rr(out: &mut Vec<u8>, r: &ResourceRecord)
    ensures
        final(out)@ == old(out)@ + enc_rr(rr_view(*r)),
{
    write_labels(out, &r.domain);
    push_be16(out, r.rrtype);
    push_be16(out, r.class);
    push_be32(out, r.ttl);
    push_be16(out, #[verifier::truncate] (r.rdata.len() as u16));
    push_bytes(out, r.rdata.as_slice(), 0, r.rdata.len());
    assert(r.rdata@.subrange(0, r.rdata@.len() as int) =~= r.rdata@);
    assert(final(out)@ =~= old(out)@ + enc_rr(rr_view(*r)));
}

fn write_questions(out: &mut Vec<u8>, qs: &Vec<Question>)
    ensures
        final(out)@ == old(out)@ + enc_questions(questions_view(qs@)),
{
    let ghost f = |q: (Seq<Seq<u8>>, u16, u16)| enc_question(q);
    let mut i: usize = 0;
    while i < qs.len()
        invariant
            i <= qs@.len(),
            f == (|q: (Seq<Seq<u8>>, u16, u16)| enc_question(q)),
            out@ == old(out)@ + flatten(questions_view(qs@.take(i as int)).map_values(f)),
        decreases qs@.len() - i,
    {
        write_question(out, &qs[i]);
        proof {
            let prev = questions_view(qs@.take(i as int)).map_values(f);
            let x = enc_question(question_view(qs@[i as int]));
            lemma_flatten_push(prev, x);
            assert(questions_view(qs@.take(i + 1)).map_values(f) =~= prev.push(x));
        }
        i = i + 1;
    }
    assert(qs@.take(qs@.len() as int) =~= qs@);
}

fn write_rrs(out: &mut Vec<u8>, rs: &Vec<ResourceRecord>)
    ensures
        final(out)@ == old(out)@ + enc_rrs(rrs_view(rs@)),
{
    let ghost f = |r: (Seq<Seq<u8>>, u16, u16, u32, Seq<u8>)| enc_rr(r);
    let mut i: usize = 0;
    while i < rs.len()
        invariant
            i <= rs@.len(),
            f == (|r: (Seq<Seq<u8>>, u16, u16, u32, Seq<u8>)| enc_rr(r)),
            out@ == old(out)@ + flatten(rrs_view(rs@.take(i as int)).map_values(f)),
        decreases rs@.len() - i,
    {
        write_rr(out, &rs[i]);
        proof {
            let prev = rrs_view(rs@.take(i as int)).map_values(f);
            let x = enc_rr(rr_view(rs@[i as int]));
            lemma_flatten_push(prev, x);
            assert(rrs_view(rs@.take(i + 1)).map_values(f) =~= prev.push(x));
        }
        i = i + 1;
    }
    assert(rs@.take(rs@.len() as int) =~= rs@);
}

fn write_edns_opts(out: &mut Vec<u8>, os: &Vec<EdnsOption>)
    ensures
        final(out)@ == old(out)@ + enc_edns_opts(edns_opts_view(os@)),
{
    let ghost f = |o: (u16, Seq<u8>)| enc_edns_opt(o);
    let mut i: usize = 0;
    while i < os.len()
        invariant
            i <= os@.len(),
            f == (|o: (u16, Seq<u8>)| enc_edns_opt(o)),
            out@ == old(out)@ + flatten(edns_opts_view(os@.take(i as int)).map_values(f)),
        decreases os@.len() - i,
    {
        let o = &os[i];
        push_be16(out, o.code);
        push_be16(out, #[verifier::truncate] (o.data.len() as u16));
        push_bytes(out, o.data.as_slice(), 0, o.data.len());
        proof {
            assert(o.data@.subrange(0, o.data@.len() as int) =~= o.data@);
            let prev = edns_opts_view(os@.take(i as int)).map_values(f);
            let x = enc_edns_opt((o.code, o.data@));
            lemma_flatten_push(prev, x);
            assert(edns_opts_view(os@.take(i + 1)).map_values(f) =~= prev.push(x));
            assert(out@ =~= old(out)@ + flatten(prev.push(x)));
        }
        i = i + 1;
    }
    assert(os@.take(os@.len() as int) =~= os@);
}

fn bitv(b: bool, v: u8) -> (r: u8)
    ensures
        r as int == bit(b, v as int),
{
    if b {
        v
    } else {
        0
    }
}

impl DNSPkt {
    /// The wire form of the message, without compression.
    pub fn serialise(&self) -> (r: Vec<u8>)
        ensures
            r@ == enc_pkt(self),
    {
        let mut out: Vec<u8> = Vec::new();
        write_header(&mut out, self);
        write_questions(&mut out, &self.question);
        write_rrs(&mut out, &self.answer);
        write_rrs(&mut out, &self.nameserver);
        write_rrs(&mut out, &self.additional);
        write_opt_rr(&mut out, self);
        assert(out@ =~= enc_pkt(self));
        out
    }
}

fn count_of(n: usize) -> (r: u16)
    ensures
        r == count16(n as int),
{
    (n % 0x1_0000) as u16
}

fn flag_octets(p: &DNSPkt) -> (r: (u8, u8))
    ensures
        r.0 == flags1(p),
        r.1 == flags2(p),
{
    let f1: u8 = bitv(p.qr, 128) + (p.opcode % 16) * 8 + bitv(p.aa, 4) + bitv(p.tc, 2) + bitv(p.rd, 1);
    let f2: u8 = bitv(p.ra, 128) + bitv(p.ad, 32) + bitv(p.cd, 16) + (p.rcode % 16) as u8;
    (f1, f2)
}

#[verifier::spinoff_prover]
fn write_header(out: &mut Vec<u8>, p: &DNSPkt)
    ensures
        final(out)@ == old(out)@ + enc_header(p),
{
    push_be16(out, p.qid);
    let (f1, f2) = flag_octets(p);
    out.push(f1);
    out.push(f2);
    push_be16(out, count_of(p.question.len()));
    push_be16(out, count_of(p.answer.len()));
    push_be16(out, count_of(p.nameserver.len()));
    let low = count_of(p.additional.len());
    let arcount: u16 = if p.edns.is_none() {
        low
    } else if low == 0xffff {
        0
    } else {
        low + 1
    };
    assert(arcount == count16(p.additional@.len() + if p.edns is Some {
        1int
    } else {
        0
    }));
    push_be16(out, arcount);
    assert(final(out)@ =~= old(out)@ + enc_header(p));
}

fn write_opt_rr(out: &mut Vec<u8>, p: &DNSPkt)
    ensures
        final(out)@ == old(out)@ + enc_opt_rr(p),
{
    match &p.edns {
        None => {
            assert(final(out)@ =~= old(out)@ + enc_opt_rr(p));
        },
        Some(e) => {
            let ver: u32 = match p.edns_ver {
                Some(v) => v as u32,
                None => 0,
            };
            let ttl: u32 = ((p.rcode / 16) % 256) as u32 * 0x100_0000 + ver * 0x1_0000 + if p.edns_do {
                0x8000u32
            } else {
                0u32
            };
            let mut opts: Vec<u8> = Vec::new();
            write_edns_opts(&mut opts, &e.options);
            out.push(0);
            push_be16(out, RR_OPT);
            push_be16(out, p.bufsize);
            push_be32(out, ttl);
            push_be16(out, #[verifier::truncate] (opts.len() as u16));
            push_bytes(out, opts.as_slice(), 0, opts.len());
            assert(opts@.subrange(0, opts@.len() as int) =~= opts@);
            assert(final(out)@ =~= old(out)@ + enc_opt_rr(p));
        },
    }
}

/// A name in wire form at `pos`: its labels and where it ends. Compression
/// pointers and extended label types are refused.
pub open spec fn dec_labels(b: Seq<u8>, pos: int) -> Option<(Seq<Seq<u8>>, int)>
    decreases b.len() - pos,
{
    if pos < 0 || pos >= b.len() {
        None
    } else {
        let k = b[pos] as int;
        if k == 0 {
            Some((Seq::empty(), pos + 1))
        } else if k >= 64 || pos + 1 + k > b.len() {
            None
        } else {
            match dec_labels(b, pos + 1 + k) {
                None => None,
                Some((ls, e)) => Some((seq![b.subrange(pos + 1, pos + 1 + k)] + ls, e)),
            }
        }
    }
}

pub open spec fn dec_question(b: Seq<u8>, pos: int) -> Option<((Seq<Seq<u8>>, u16, u16), int)> {
    match dec_labels(b, pos) {
        None => None,
        Some((ls, e)) => if e + 4 > b.len() {
            None
        } else {
            Some(((ls, rd16(b, e), rd16(b, e + 2)), e + 4))
        },
    }
}

pub open spec fn dec_rr(b: Seq<u8>, pos: int) -> Option<((Seq<Seq<u8>>, u16, u16, u32, Seq<u8>), int)> {
    match dec_labels(b, pos) {
        None => None,
        Some((ls, e)) => if e + 10 > b.len() {
            None
        } else {
            let n = rd16(b, e + 8) as int;
            if e + 10 + n > b.len() {
                None
            } else {
                Some(
                    (
                        (ls, rd16(b, e), rd16(b, e + 2), rd32(b, e + 4), b.subrange(e + 10, e + 10 + n)),
                        e + 10 + n,
                    ),
                )
            }
        },
    }
}

pub open spec fn dec_questions(b: Seq<u8>, pos: int, n: nat) -> Option<(Seq<(Seq<Seq<u8>>, u16, u16)>, int)>
    decreases n,
{
    if n == 0 {
        Some((Seq::empty(), pos))
    } else {
        match dec_questions(b, pos, (n - 1) as nat) {
            None => None,
            Some((qs, e)) => match dec_question(b, e) {
                None => None,
                Some((q, e2)) => Some((qs.push(q), e2)),
            },
        }
    }
}

pub open spec fn dec_rrs(b: Seq<u8>, pos: int, n: nat) -> Option<(Seq<(Seq<Seq<u8>>, u16, u16, u32, Seq<u8>)>, int)>
    decreases n,
{
    if n == 0 {
        Some((Seq::empty(), pos))
    } else {
        match dec_rrs(b, pos, (n - 1) as nat) {
            None => None,
            Some((rs, e)) => match dec_rr(b, e) {
                None => None,
                Some((r, e2)) => Some((rs.push(r), e2)),
            },
        }
    }
}

/// The options in the data of an EDNS record.
pub open spec fn dec_edns_opts(d: Seq<u8>) -> Option<Seq<(u16, Seq<u8>)>>
    decreases d.len(),
{
    if d.len() == 0 {
        Some(Seq::empty())
    } else if d.len() < 4 {
        None
    } else {
        let n = rd16(d, 2) as int;
        if 4 + n > d.len() {
            None
        } else {
            match dec_edns_opts(d.subrange(4 + n, d.len() as int)) {
                None => None,
                Some(os) => Some(seq![(rd16(d, 0), d.subrange(4, 4 + n))] + os),
            }
        }
    }
}

fn parse_labels(b: &[u8], pos: usize) -> (r: Option<(Vec<Vec<u8>>, usize)>)
    ensures
        r is None <==> dec_labels(b@, pos as int) is None,
        r matches Some((ls, e)) ==> dec_labels(b@, pos as int) == Some((bytes_list_view(ls@), e as int))
            && e <= b@.len(),
    decreases b@.len() - pos,
{
    if pos >= b.len() {
        return None;
    }
    let k = b[pos] as usize;
    if k == 0 {
        let r: Vec<Vec<u8>> = Vec::new();
        assert(bytes_list_view(r@) =~= Seq::<Seq<u8>>::empty());
        return Some((r, pos + 1));
    }
    if k >= 64 || k + 1 > b.len() - pos {
        return None;
    }
    match parse_labels(b, pos + 1 + k) {
        None => None,
        Some((rest, e)) => {
            let mut label: Vec<u8> = Vec::new();
            push_bytes(&mut label, b, pos + 1, pos + 1 + k);
            assert(label@ =~= b@.subrange(pos + 1, pos + 1 + k));
            let mut out: Vec<Vec<u8>> = Vec::new();
            out.push(label);
            let mut i: usize = 0;
            while i < rest.len()
                invariant
                    i <= rest@.len(),
                    pos + 1 + k <= b@.len(),
                    out@.len() == i + 1,
                    out@[0]@ == b@.subrange(pos + 1, pos + 1 + k),
                    forall|j: int| 0 <= j < i ==> #[trigger] out@[j + 1]@ == rest@[j]@,
                decreases rest@.len() - i,
            {
                out.push(vstd::slice::slice_to_vec(rest[i].as_slice()));
                i = i + 1;
            }
            let ghost want = seq![b@.subrange(pos + 1, pos + 1 + k)] + bytes_list_view(rest@);
            assert forall|j: int| 0 <= j < out@.len() implies bytes_list_view(out@)[j] == want[j] by {
                if j > 0 {
                    assert(out@[(j - 1) + 1]@ == rest@[j - 1]@);
                }
            }
            assert(bytes_list_view(out@) =~= want);
            Some((out, e))
        },
    }
}

fn parse_question(b: &[u8], pos: usize) -> (r: Option<(Question, usize)>)
    ensures
        r is None <==> dec_question(b@, pos as int) is None,
        r matches Some((q, e)) ==> dec_question(b@, pos as int) == Some((question_view(q), e as int))
            && e <= b@.len(),
{
    match parse_labels(b, pos) {
        None => None,
        Some((ls, e)) => {
            if b.len() < 4 || e > b.len() - 4 {
                return None;
            }
            let q = Question { qdomain: ls, qtype: rd16_at(b, e), qclass: rd16_at(b, e + 2) };
            Some((q, e + 4))
        },
    }
}

fn parse_rr(b: &[u8], pos: usize) -> (r: Option<(ResourceRecord, usize)>)
    ensures
        r is None <==> dec_rr(b@, pos as int) is None,
        r matches Some((x, e)) ==> dec_rr(b@, pos as int) == Some((rr_view(x), e as int)) && e
            <= b@.len(),
{
    match parse_labels(b, pos) {
        None => None,
        Some((ls, e)) => {
            if b.len() < 10 || e > b.len() - 10 {
                return None;
            }
            let n = rd16_at(b, e + 8) as usize;
            if n > b.len() - e - 10 {
                return None;
            }
            let mut rdata: Vec<u8> = Vec::new();
            push_bytes(&mut rdata, b, e + 10, e + 10 + n);
            assert(rdata@ =~= b@.subrange(e + 10, e + 10 + n));
            let x = ResourceRecord {
                domain: ls,
                rrtype: rd16_at(b, e),
                class: rd16_at(b, e + 2),
                ttl: rd32_at(b, e + 4),
                rdata,
            };
            Some((x, e + 10 + n))
        },
    }
}

fn parse_questions(b: &[u8], pos: usize, n: u16) -> (r: Option<(Vec<Question>, usize)>)
    ensures
        r is None <==> dec_questions(b@, pos as int, n as nat) is None,
        r matches Some((qs, e)) ==> dec_questions(b@, pos as int, n as nat) == Some(
            (questions_view(qs@), e as int),
        ),
{
    let mut qs: Vec<Question> = Vec::new();
    let mut p: usize = pos;
    let mut i: u16 = 0;
    assert(questions_view(qs@) =~= Seq::<(Seq<Seq<u8>>, u16, u16)>::empty());
    while i < n
        invariant
            i <= n,
            dec_questions(b@, pos as int, i as nat) == Some((questions_view(qs@), p as int)),
        decreases n - i,
    {
        match parse_question(b, p) {
            None => {
                proof {
                    lemma_dec_questions_stuck(b@, pos as int, (i + 1) as nat, n as nat);
                }
                return None;
            },
            Some((q, e)) => {
                let ghost before = qs@;
                qs.push(q);
                assert(questions_view(qs@) =~= questions_view(before).push(question_view(q)));
                p = e;
            },
        }
        i = i + 1;
    }
    Some((qs, p))
}

proof fn lemma_dec_questions_stuck(b: Seq<u8>, pos: int, k: nat, n: nat)
    requires
        k <= n,
        dec_questions(b, pos, k) is None,
    ensures
        dec_questions(b, pos, n) is None,
    decreases n - k,
{
    if k < n {
        lemma_dec_questions_stuck(b, pos, k + 1, n);
    }
}

proof fn lemma_dec_rrs_stuck(b: Seq<u8>, pos: int, k: nat, n: nat)
    requires
        k <= n,
        dec_rrs(b, pos, k) is None,
    ensures
        dec_rrs(b, pos, n) is None,
    decreases n - k,
{
    if k < n {
        lemma_dec_rrs_stuck(b, pos, k + 1, n);
    }
}

fn parse_rrs(b: &[u8], pos: usize, n: u16) -> (r: Option<(Vec<ResourceRecord>, usize)>)
    ensures
        r is None <==> dec_rrs(b@, pos as int, n as nat) is None,
        r matches Some((rs, e)) ==> dec_rrs(b@, pos as int, n as nat) == Some(
            (rrs_view(rs@), e as int),
        ),
{
    let mut rs: Vec<ResourceRecord> = Vec::new();
    let mut p: usize = pos;
    let mut i: u16 = 0;
    assert(rrs_view(rs@) =~= Seq::<(Seq<Seq<u8>>, u16, u16, u32, Seq<u8>)>::empty());
    while i < n
        invariant
            i <= n,
            dec_rrs(b@, pos as int, i as nat) == Some((rrs_view(rs@), p as int)),
        decreases n - i,
    {
        match parse_rr(b, p) {
            None => {
                proof {
                    lemma_dec_rrs_stuck(b@, pos as int, (i + 1) as nat, n as nat);
                }
                return None;
            },
            Some((x, e)) => {
                let ghost before = rs@;
                rs.push(x);
                assert(rrs_view(rs@) =~= rrs_view(before).push(rr_view(x)));
                p = e;
            },
        }
        i = i + 1;
    }
    Some((rs, p))
}

fn parse_edns_opts(d: &[u8]) -> (r: Option<Vec<EdnsOption>>)
    ensures
        r is None <==> dec_edns_opts(d@) is None,
        r matches Some(os) ==> dec_edns_opts(d@) == Some(edns_opts_view(os@)),
{
    let mut os: Vec<EdnsOption> = Vec::new();
    let mut p: usize = 0;
    assert(d@.subrange(0, d@.len() as int) =~= d@);
    assert(edns_opts_view(os@) =~= Seq::<(u16, Seq<u8>)>::empty());
    assert(forall|rest: Seq<(u16, Seq<u8>)>| Seq::<(u16, Seq<u8>)>::empty() + rest =~= rest);
    while p < d.len()
        invariant
            p <= d@.len(),
            dec_edns_opts(d@) == match dec_edns_opts(d@.subrange(p as int, d@.len() as int)) {
                None => None,
                Some(rest) => Some(edns_opts_view(os@) + rest),
            },
        decreases d@.len() - p,
    {
        let ghost r = d@.subrange(p as int, d@.len() as int);
        if d.len() - p < 4 {
            return None;
        }
        let code = rd16_at(d, p);
        let n = rd16_at(d, p + 2) as usize;
        assert(rd16(r, 0) == code && rd16(r, 2) == n);
        if n > d.len() - p - 4 {
            return None;
        }
        let mut data: Vec<u8> = Vec::new();
        push_bytes(&mut data, d, p + 4, p + 4 + n);
        assert(data@ =~= r.subrange(4, 4 + n as int));
        assert(r.subrange(4 + n as int, r.len() as int) =~= d@.subrange((p + 4 + n) as int, d@.len() as int));
        let ghost before = os@;
        os.push(EdnsOption { code, data });
        assert(edns_opts_view(os@) =~= edns_opts_view(before).push((code, data@)));
        assert(forall|rest: Seq<(u16, Seq<u8>)>| edns_opts_view(before) + (seq![(code, data@)] + rest)
            =~= edns_opts_view(before).push((code, data@)) + rest);
        p = p + 4 + n;
    }
    assert(dec_edns_opts(d@.subrange(p as int, d@.len() as int)) == Some(Seq::<(u16, Seq<u8>)>::empty()));
    assert(edns_opts_view(os@) + Seq::<(u16, Seq<u8>)>::empty() =~= edns_opts_view(os@));
    Some(os)
}

/// The mathematical value of a message.
pub struct PktView {
    pub qid: u16,
    pub rd: bool,
    pub tc: bool,
    pub aa: bool,
    pub qr: bool,
    pub opcode: u8,
    pub cd: bool,
    pub ad: bool,
    pub ra: bool,
    pub rcode: u16,
    pub bufsize: u16,
    pub edns_ver: Option<u8>,
    pub edns_do: bool,
    pub question: Seq<(Seq<Seq<u8>>, u16, u16)>,
    pub answer: Seq<(Seq<Seq<u8>>, u16, u16, u32, Seq<u8>)>,
    pub nameserver: Seq<(Seq<Seq<u8>>, u16, u16, u32, Seq<u8>)>,
    pub additional: Seq<(Seq<Seq<u8>>, u16, u16, u32, Seq<u8>)>,
    pub edns: Option<Seq<(u16, Seq<u8>)>>,
}

pub open spec fn pkt_view(p: &DNSPkt) -> PktView {
    PktView {
        qid: p.qid,
        rd: p.rd,
        tc: p.tc,
        aa: p.aa,
        qr: p.qr,
        opcode: p.opcode,
        cd: p.cd,
        ad: p.ad,
        ra: p.ra,
        rcode: p.rcode,
        bufsize: p.bufsize,
        edns_ver: p.edns_ver,
        edns_do: p.edns_do,
        question: questions_view(p.question@),
        answer: rrs_view(p.answer@),
        nameserver: rrs_view(p.nameserver@),
        additional: rrs_view(p.additional@),
        edns: edns_view(p.edns),
    }
}

/// Buffer size assumed for a query without EDNS.
pub const DEFAULT_BUFSIZE: u16 = 512;

pub open spec fn is_opt_rr(r: (Seq<Seq<u8>>, u16, u16, u32, Seq<u8>)) -> bool {
    r.1 == RR_OPT
}

pub open spec fn not_opt_rr(r: (Seq<Seq<u8>>, u16, u16, u32, Seq<u8>)) -> bool {
    r.1 != RR_OPT
}

/// Decodes a message. The EDNS record is taken out of the additional
/// section; a message with two of them, or with a malformed one, is refused.
/// Octets after the last record are ignored.
pub open spec fn dec_pkt(b: Seq<u8>) -> Option<PktView> {
    if b.len() < 12 {
        None
    } else {
        match dec_questions(b, 12, rd16(b, 4) as nat) {
            None => None,
            Some((qs, e1)) => match dec_rrs(b, e1, rd16(b, 6) as nat) {
                None => None,
                Some((an, e2)) => match dec_rrs(b, e2, rd16(b, 8) as nat) {
                    None => None,
                    Some((ns, e3)) => match dec_rrs(b, e3, rd16(b, 10) as nat) {
                        None => None,
                        Some((ar, _)) => {
                            let opts = ar.filter(|r: (Seq<Seq<u8>>, u16, u16, u32, Seq<u8>)| is_opt_rr(r));
                            let rest = ar.filter(|r: (Seq<Seq<u8>>, u16, u16, u32, Seq<u8>)| not_opt_rr(r));
                            let f2 = b[2];
                            let f3 = b[3];
                            let base = PktView {
                                qid: rd16(b, 0),
                                rd: f2 % 2 == 1,
                                tc: (f2 / 2) % 2 == 1,
                                aa: (f2 / 4) % 2 == 1,
                                qr: f2 >= 128,
                                opcode: (f2 / 8) % 16,
                                cd: (f3 / 16) % 2 == 1,
                                ad: (f3 / 32) % 2 == 1,
                                ra: f3 >= 128,
                                rcode: (f3 % 16) as u16,
                                bufsize: DEFAULT_BUFSIZE,
                                edns_ver: None,
                                edns_do: false,
                                question: qs,
                                answer: an,
                                nameserver: ns,
                                additional: rest,
                                edns: None,
                            };
                            if opts.len() == 0 {
                                Some(base)
                            } else if opts.len() > 1 {
                                None
                            } else {
                                let o = opts[0];
                                match dec_edns_opts(o.4) {
                                    None => None,
                                    Some(eo) => Some(
                                        PktView {
                                            rcode: ((o.3 / 0x100_0000) * 16 + (f3 % 16) as u32) as u16,
                                            bufsize: o.2,
                                            edns_ver: Some(((o.3 / 0x1_0000) % 256) as u8),
                                            edns_do: (o.3 / 0x8000) % 2 == 1,
                                            edns: Some(eo),
                                            ..base
                                        },
                                    ),
                                }
                            }
                        },
                    },
                },
            },
        }
    }
}

/// Decodes a DNS message from its wire form (see `dec_pkt`).
pub fn parse_pkt(b: &[u8]) -> (r: Option<DNSPkt>)
    ensures
        r is None <==> dec_pkt(b@) is None,
        r matches Some(p) ==> dec_pkt(b@) == Some(pkt_view(&p)),
{
    if b.len() < 12 {
        return None;
    }
    let (question, e1) = match parse_questions(b, 12, rd16_at(b, 4)) {
        None => {
            return None;
        },
        Some(x) => x,
    };
    let (answer, e2) = match parse_rrs(b, e1, rd16_at(b, 6)) {
        None => {
            return None;
        },
        Some(x) => x,
    };
    let (nameserver, e3) = match parse_rrs(b, e2, rd16_at(b, 8)) {
        None => {
            return None;
        },
        Some(x) => x,
    };
    let (mut ar, _) = match parse_rrs(b, e3, rd16_at(b, 10)) {
        None => {
            return None;
        },
        Some(x) => x,
    };
    let ghost arv = rrs_view(ar@);
    let ghost po = |r: (Seq<Seq<u8>>, u16, u16, u32, Seq<u8>)| is_opt_rr(r);
    let ghost pn = |r: (Seq<Seq<u8>>, u16, u16, u32, Seq<u8>)| not_opt_rr(r);
    let mut additional: Vec<ResourceRecord> = Vec::new();
    let mut opt: Option<ResourceRecord> = None;
    let mut opt_count: usize = 0;
    // Reverse the records so that popping walks them in order, then split
    // the EDNS ones out.
    let mut i: usize = 0;
    let n = ar.len();
    let mut rev: Vec<ResourceRecord> = Vec::new();
    while ar.len() > 0
        invariant
            ar@.len() + rev@.len() == n,
            n == arv.len(),
            forall|j: int| 0 <= j < ar@.len() ==> #[trigger] rr_view(ar@[j]) == arv[j],
            forall|j: int| 0 <= j < rev@.len() ==> #[trigger] rr_view(rev@[j]) == arv[n - 1 - j],
        decreases ar@.len(),
    {
        let x = ar.pop().unwrap();
        rev.push(x);
    }
    while rev.len() > 0
        invariant
            i + rev@.len() == n,
            n == arv.len(),
            po == (|r: (Seq<Seq<u8>>, u16, u16, u32, Seq<u8>)| is_opt_rr(r)),
            pn == (|r: (Seq<Seq<u8>>, u16, u16, u32, Seq<u8>)| not_opt_rr(r)),
            forall|j: int| 0 <= j < rev@.len() ==> #[trigger] rr_view(rev@[j]) == arv[n - 1 - j],
            rrs_view(additional@) == arv.take(i as int).filter(pn),
            opt_count == arv.take(i as int).filter(po).len(),
            opt_count <= i,
            opt_count == 1 ==> (opt matches Some(o) && rr_view(o) == arv.take(i as int).filter(po)[0]),
        decreases rev@.len(),
    {
        let x = rev.pop().unwrap();
        assert(rr_view(x) == arv[i as int]);
        proof {
            assert(arv.take(i + 1) =~= arv.take(i as int).push(arv[i as int]));
            arv.take(i as int).lemma_filter_push(arv[i as int], po);
            arv.take(i as int).lemma_filter_push(arv[i as int], pn);
        }
        if x.rrtype == RR_OPT {
            assert(po(rr_view(x)) && !pn(rr_view(x)));
            if opt_count == 0 {
                opt = Some(x);
            }
            opt_count = opt_count + 1;
        } else {
            assert(!po(rr_view(x)) && pn(rr_view(x)));
            let ghost before = additional@;
            additional.push(x);
            assert(rrs_view(additional@) =~= rrs_view(before).push(rr_view(x)));
        }
        i = i + 1;
    }
    assert(arv.take(n as int) =~= arv);
    let f2 = b[2];
    let f3 = b[3];
    let mut p = DNSPkt {
        qid: rd16_at(b, 0),
        rd: f2 % 2 == 1,
        tc: (f2 / 2) % 2 == 1,
        aa: (f2 / 4) % 2 == 1,
        qr: f2 >= 128,
        opcode: (f2 / 8) % 16,
        cd: (f3 / 16) % 2 == 1,
        ad: (f3 / 32) % 2 == 1,
        ra: f3 >= 128,
        rcode: (f3 % 16) as u16,
        bufsize: DEFAULT_BUFSIZE,
        edns_ver: None,
        edns_do: false,
        question,
        answer,
        nameserver,
        additional,
        edns: None,
    };
    if opt_count > 1 {
        return None;
    }
    if opt_count == 1 {
        let o = opt.unwrap();
        match parse_edns_opts(o.rdata.as_slice()) {
            None => {
                return None;
            },
            Some(eo) => {
                p.rcode = ((o.ttl / 0x100_0000) * 16 + (f3 % 16) as u32) as u16;
                p.bufsize = o.class;
                p.edns_ver = Some(((o.ttl / 0x1_0000) % 256) as u8);
                p.edns_do = (o.ttl / 0x8000) % 2 == 1;
                p.edns = Some(EdnsData { options: eo });
            },
        }
    }
    Some(p)
}

} // verus!
