use vstd::bytes::{
    lemma_auto_spec_u32_to_from_le_bytes, spec_u32_from_le_bytes, spec_u32_to_le_bytes,
    u32_from_le_bytes, u32_to_le_bytes,
};
use vstd::prelude::*;
use vstd::string::{StrSliceExecFns, StringSliceAdditionalSpecFns};

use crate::errors::ErrorKind;

verus! {

/// The wire type code that marks a port envelope as a flattened
/// message.  Envelopes written with any other code are rejected before
/// the payload is inspected.
pub const B_MESSAGE_TYPE: u32 = 0x4D534747;

/// Lifecycle notification: delivered exactly once, before any other
/// message, to a fresh application.
pub const B_READY_TO_RUN: u32 = 0x5F52524E;

/// Control code asking a looper to confirm shutdown.  The dispatch
/// loop absorbs it before the handler; the cooperative shutdown path
/// behind it is deliberately unfinished.
pub const B_QUIT_REQUESTED: u32 = 0x5F515251;

/// Control code that terminates a looper: once it is processed, no
/// further message is delivered to that looper's handler.
pub const QUIT: u32 = 0x5F514954;

/// The mathematical value of a message: a 32-bit "what" code, a
/// sequence of named 32-bit data fields, and an optional reply
/// address, set once at send time.
#[verifier::ext_equal]
pub struct MessageView {
    pub what: u32,
    pub reply_to: Option<i32>,
    pub fields: Seq<(Seq<u8>, u32)>,
}

impl MessageView {
    /// A message is well formed when every field name fits the
    /// length prefix of the wire format and the reply address, if
    /// set, is a real port identifier (never negative).
    pub open spec fn wf(self) -> bool {
        &&& forall|i: int|
            0 <= i < self.fields.len() ==> (#[trigger] self.fields[i]).0.len() <= u32::MAX
        &&& match self.reply_to {
            Some(p) => p >= 0,
            None => true,
        }
    }
}

/// The wire bytes of one data field: a 32-bit length prefix, the name
/// bytes, then the 32-bit value.
pub open spec fn spec_encode_field(f: (Seq<u8>, u32)) -> Seq<u8> {
    spec_u32_to_le_bytes(f.0.len() as u32) + f.0 + spec_u32_to_le_bytes(f.1)
}

/// The wire bytes of a field list: each field in order, nothing else.
pub open spec fn spec_encode_fields(fs: Seq<(Seq<u8>, u32)>) -> Seq<u8>
    decreases fs.len(),
{
    if fs.len() == 0 {
        Seq::empty()
    } else {
        spec_encode_field(fs[0]) + spec_encode_fields(fs.drop_first())
    }
}

/// The flattened form of a whole message: the "what" code, a reply
/// flag byte (with the reply port after it when set), then the fields.
pub open spec fn spec_encode(m: MessageView) -> Seq<u8> {
    spec_u32_to_le_bytes(m.what) + (match m.reply_to {
        None => seq![0u8],
        Some(p) => seq![1u8] + spec_u32_to_le_bytes(p as u32),
    }) + spec_encode_fields(m.fields)
}

/// Parses a field list.  The whole rest of the buffer must be
/// consumed: trailing bytes make the envelope corrupt.
pub open spec fn spec_parse_fields(b: Seq<u8>) -> Option<Seq<(Seq<u8>, u32)>>
    decreases b.len(),
{
    if b.len() == 0 {
        Some(Seq::empty())
    } else if b.len() < 8 {
        None
    } else {
        let nl = spec_u32_from_le_bytes(b.subrange(0, 4)) as int;
        if b.len() < 8 + nl {
            None
        } else {
            let name = b.subrange(4, 4 + nl);
            let value = spec_u32_from_le_bytes(b.subrange(4 + nl, 8 + nl));
            match spec_parse_fields(b.skip(8 + nl)) {
                Some(rest) => Some(seq![(name, value)] + rest),
                None => None,
            }
        }
    }
}

/// Parses a flattened message.  `None` means the bytes are not a
/// valid flattened message.
pub open spec fn spec_parse(b: Seq<u8>) -> Option<MessageView> {
    if b.len() < 5 {
        None
    } else {
        let what = spec_u32_from_le_bytes(b.subrange(0, 4));
        if b[4] == 0 {
            match spec_parse_fields(b.skip(5)) {
                Some(fields) => Some(MessageView { what, reply_to: None, fields }),
                None => None,
            }
        } else if b[4] == 1 {
            if b.len() < 9 {
                None
            } else {
                let r = spec_u32_from_le_bytes(b.subrange(5, 9));
                if r > i32::MAX as u32 {
                    None
                } else {
                    match spec_parse_fields(b.skip(9)) {
                        Some(fields) => Some(
                            MessageView { what, reply_to: Some(r as i32), fields },
                        ),
                        None => None,
                    }
                }
            }
        } else {
            None
        }
    }
}

/// Encoding a field list and parsing it back yields the same list:
/// the wire format loses nothing and invents nothing.
pub proof fn lemma_parse_fields_encode(fs: Seq<(Seq<u8>, u32)>)
    requires
        forall|i: int| 0 <= i < fs.len() ==> (#[trigger] fs[i]).0.len() <= u32::MAX,
    ensures
        spec_parse_fields(spec_encode_fields(fs)) == Some(fs),
    decreases fs.len(),
{
    lemma_auto_spec_u32_to_from_le_bytes();
    if fs.len() == 0 {
        assert(spec_parse_fields(spec_encode_fields(fs)) =~= Some(fs));
    } else {
        let f = fs[0];
        let nl = f.0.len() as int;
        let e = spec_encode_field(f);
        let rest = spec_encode_fields(fs.drop_first());
        let b = e + rest;
        assert(spec_encode_fields(fs) == b);
        assert(e.len() == 8 + nl);
        assert(b.subrange(0, 4) =~= spec_u32_to_le_bytes(f.0.len() as u32));
        assert(spec_u32_from_le_bytes(b.subrange(0, 4)) == f.0.len() as u32);
        assert(b.len() >= 8 + nl);
        assert(b.subrange(4, 4 + nl) =~= f.0);
        assert(b.subrange(4 + nl, 8 + nl) =~= spec_u32_to_le_bytes(f.1));
        assert(b.skip(8 + nl) =~= rest);
        lemma_parse_fields_encode(fs.drop_first());
        assert(spec_parse_fields(b) == Some(seq![(f.0, f.1)] + fs.drop_first()));
        assert(seq![(f.0, f.1)] + fs.drop_first() =~= fs);
    }
}

/// Round trip of the whole wire format: parsing the flattened form of
/// a well-formed message yields exactly that message.
pub proof fn lemma_parse_encode(m: MessageView)
    requires
        m.wf(),
    ensures
        spec_parse(spec_encode(m)) == Some(m),
{
    lemma_auto_spec_u32_to_from_le_bytes();
    let b = spec_encode(m);
    let body = spec_encode_fields(m.fields);
    lemma_parse_fields_encode(m.fields);
    match m.reply_to {
        None => {
            assert(b.len() == 5 + body.len());
            assert(b.subrange(0, 4) =~= spec_u32_to_le_bytes(m.what));
            assert(b[4] == 0);
            assert(b.skip(5) =~= body);
            assert(spec_parse(b) == Some(MessageView { what: m.what, reply_to: None, fields: m.fields }));
            assert((MessageView { what: m.what, reply_to: None, fields: m.fields }) =~= m);
        },
        Some(p) => {
            assert(b.len() == 9 + body.len());
            assert(b.subrange(0, 4) =~= spec_u32_to_le_bytes(m.what));
            assert(b[4] == 1);
            assert(b.subrange(5, 9) =~= spec_u32_to_le_bytes(p as u32));
            assert(spec_u32_from_le_bytes(b.subrange(5, 9)) == p as u32);
            assert(p as u32 <= i32::MAX as u32);
            assert((p as u32) as i32 == p);
            assert(b.skip(9) =~= body);
            assert(spec_parse(b) == Some(MessageView { what: m.what, reply_to: Some(p), fields: m.fields }));
            assert((MessageView { what: m.what, reply_to: Some(p), fields: m.fields }) =~= m);
        },
    }
}

/// Appending one field to a list appends its wire bytes to the list's
/// wire bytes.
pub proof fn lemma_encode_fields_push(fs: Seq<(Seq<u8>, u32)>, f: (Seq<u8>, u32))
    ensures
        spec_encode_fields(fs.push(f)) == spec_encode_fields(fs) + spec_encode_field(f),
    decreases fs.len(),
{
    if fs.len() == 0 {
        assert(fs.push(f).len() == 1);
        assert(fs.push(f)[0] == f);
        assert(fs.push(f).drop_first() =~= Seq::<(Seq<u8>, u32)>::empty());
        assert(spec_encode_fields(fs.push(f)) == spec_encode_field(f) + spec_encode_fields(
            Seq::<(Seq<u8>, u32)>::empty(),
        ));
        assert(spec_encode_field(f) + Seq::<u8>::empty() =~= Seq::<u8>::empty()
            + spec_encode_field(f));
    } else {
        assert(fs.push(f)[0] == fs[0]);
        assert(fs.push(f).drop_first() =~= fs.drop_first().push(f));
        lemma_encode_fields_push(fs.drop_first(), f);
        let a = spec_encode_field(fs[0]);
        let b = spec_encode_fields(fs.drop_first());
        let c = spec_encode_field(f);
        assert(spec_encode_fields(fs.push(f)) == a + (b + c));
        assert(a + (b + c) =~= (a + b) + c);
    }
}

/// Looks up the value of the `index`-th field named `name`, scanning
/// in insertion order.
pub open spec fn spec_find_data(fields: Seq<(Seq<u8>, u32)>, name: Seq<u8>, index: int) -> Option<
    u32,
>
    decreases fields.len(),
{
    if fields.len() == 0 {
        None
    } else if fields[0].0 == name {
        if index == 0 {
            Some(fields[0].1)
        } else {
            spec_find_data(fields.drop_first(), name, index - 1)
        }
    } else {
        spec_find_data(fields.drop_first(), name, index)
    }
}

/// Reads the four little-endian bytes at `off` as a `u32`.
fn read_u32(b: &Vec<u8>, off: usize) -> (x: u32)
    requires
        off + 4 <= b@.len(),
        b@.len() <= usize::MAX,
    ensures
        x == spec_u32_from_le_bytes(b@.subrange(off as int, off as int + 4)),
{
    let mut tmp: Vec<u8> = Vec::new();
    tmp.push(b[off]);
    tmp.push(b[off + 1]);
    tmp.push(b[off + 2]);
    tmp.push(b[off + 3]);
    proof {
        assert(tmp@ =~= b@.subrange(off as int, off as int + 4));
    }
    u32_from_le_bytes(tmp.as_slice())
}

/// Compares a byte vector with a byte slice for equality.
fn bytes_eq(a: &Vec<u8>, b: &[u8]) -> (r: bool)
    ensures
        r == (a@ == b@),
{
    if a.len() != b.len() {
        proof {
            assert(a@.len() != b@.len());
        }
        return false;
    }
    let n = a.len();
    let mut i: usize = 0;
    while i < n
        invariant
            n == a@.len(),
            n == b@.len(),
            i <= n,
            forall|k: int| 0 <= k < i ==> a@[k] == b@[k],
        decreases n - i,
    {
        if a[i] != b[i] {
            return false;
        }
        i += 1;
    }
    proof {
        assert(a@ =~= b@);
    }
    true
}

/// A typed envelope: a 32-bit "what" code, named 32-bit data fields,
/// and an optional reply address.  Decoding always yields a fresh
/// owned value; sender and receiver never share identity.
pub struct Message {
    what: u32,
    reply_to: Option<i32>,
    fields: Vec<(Vec<u8>, u32)>,
}

impl View for Message {
    type V = MessageView;

    closed spec fn view(&self) -> MessageView {
        MessageView {
            what: self.what,
            reply_to: self.reply_to,
            fields: self.fields@.map_values(|p: (Vec<u8>, u32)| (p.0@, p.1)),
        }
    }
}

impl Message {
    /// A fresh message with the given "what" code, no data and no
    /// reply address.
    pub fn new(what: u32) -> (m: Message)
        ensures
            m@ == (MessageView { what, reply_to: None, fields: Seq::empty() }),
            m@.wf(),
    {
        let m = Message { what, reply_to: None, fields: Vec::new() };
        proof {
            assert(m@.fields =~= Seq::<(Seq<u8>, u32)>::empty());
            assert(m@ =~= (MessageView { what, reply_to: None, fields: Seq::empty() }));
        }
        m
    }

    /// The message's 32-bit type code.
    pub fn what(&self) -> (w: u32)
        ensures
            w == self@.what,
    {
        self.what
    }

    /// The reply address set at send time, if any.
    pub fn reply_port(&self) -> (r: Option<i32>)
        ensures
            r == self@.reply_to,
    {
        self.reply_to
    }

    /// Marks the message with the port the receiver should answer to.
    /// Used by the send path; the address never changes afterwards.
    pub(crate) fn set_reply_port(&mut self, port: i32)
        ensures
            final(self)@ == (MessageView { reply_to: Some(port), ..old(self)@ }),
    {
        self.reply_to = Some(port);
        proof {
            assert(final(self)@ =~= (MessageView { reply_to: Some(port), ..old(self)@ }));
        }
    }

    /// Appends a named 32-bit data field.
    pub fn add_data(&mut self, name: &str, value: u32)
        requires
            name.spec_bytes().len() <= u32::MAX,
        ensures
            final(self)@ == (MessageView {
                fields: old(self)@.fields.push((name.spec_bytes(), value)),
                ..old(self)@
            }),
    {
        let bytes = name.as_bytes_vec();
        self.fields.push((bytes, value));
        proof {
            assert(final(self)@.fields =~= old(self)@.fields.push((name.spec_bytes(), value)));
            assert(final(self)@ =~= (MessageView {
                fields: old(self)@.fields.push((name.spec_bytes(), value)),
                ..old(self)@
            }));
        }
    }

    /// Looks up the value of the `index`-th data field named `name`.
    pub fn find_data(&self, name: &str, index: usize) -> (r: Option<u32>)
        ensures
            r == spec_find_data(self@.fields, name.spec_bytes(), index as int),
    {
        let needle = name.as_bytes();
        let n = self.fields.len();
        let mut i: usize = 0;
        let mut remaining = index;
        proof {
            assert(self@.fields.skip(0) =~= self@.fields);
        }
        while i < n
            invariant
                n == self.fields@.len(),
                i <= n,
                needle@ == name.spec_bytes(),
                spec_find_data(self@.fields, name.spec_bytes(), index as int)
                    == spec_find_data(self@.fields.skip(i as int), name.spec_bytes(), remaining as int),
            decreases n - i,
        {
            proof {
                assert(self@.fields.skip(i as int).len() > 0);
                assert(self@.fields.skip(i as int)[0] == self@.fields[i as int]);
                assert(self@.fields.skip(i as int).drop_first() =~= self@.fields.skip(i as int + 1));
            }
            if bytes_eq(&self.fields[i].0, needle) {
                if remaining == 0 {
                    return Some(self.fields[i].1);
                }
                remaining = remaining - 1;
            }
            i += 1;
        }
        proof {
            assert(self@.fields.skip(n as int).len() == 0);
        }
        None
    }

    /// Encodes the message into its wire form.
    pub fn flatten(&self) -> (r: Vec<u8>)
        requires
            self@.wf(),
        ensures
            r@ == spec_encode(self@),
    {
        let mut out = u32_to_le_bytes(self.what);
        match self.reply_to {
            None => {
                out.push(0u8);
            },
            Some(p) => {
                out.push(1u8);
                let mut rb = u32_to_le_bytes(p as u32);
                out.append(&mut rb);
            },
        }
        let ghost header = out@;
        proof {
            assert(header =~= spec_u32_to_le_bytes(self@.what) + (match self@.reply_to {
                None => seq![0u8],
                Some(p) => seq![1u8] + spec_u32_to_le_bytes(p as u32),
            }));
        }
        let n = self.fields.len();
        let mut i: usize = 0;
        while i < n
            invariant
                n == self.fields@.len(),
                i <= n,
                self@.wf(),
                out@ == header + spec_encode_fields(self@.fields.take(i as int)),
            decreases n - i,
        {
            proof {
                assert(self@.fields[i as int] == (self.fields@[i as int].0@, self.fields@[i as int].1));
                assert(self@.fields[i as int].0.len() <= u32::MAX);
            }
            let name = &self.fields[i].0;
            let mut lb = u32_to_le_bytes(name.len() as u32);
            out.append(&mut lb);
            let nlen = name.len();
            let mut j: usize = 0;
            while j < nlen
                invariant
                    j <= nlen,
                    nlen == name@.len(),
                    out@ == header + spec_encode_fields(self@.fields.take(i as int))
                        + spec_u32_to_le_bytes(nlen as u32) + name@.take(j as int),
                decreases nlen - j,
            {
                out.push(name[j]);
                proof {
                    assert(name@.take(j as int).push(name@[j as int]) =~= name@.take(j as int + 1));
                    assert(out@ =~= header + spec_encode_fields(self@.fields.take(i as int))
                        + spec_u32_to_le_bytes(nlen as u32) + name@.take(j as int + 1));
                }
                j += 1;
            }
            let mut vb = u32_to_le_bytes(self.fields[i].1);
            out.append(&mut vb);
            proof {
                let fv = self@.fields[i as int];
                assert(name@.take(nlen as int) =~= fv.0);
                lemma_encode_fields_push(self@.fields.take(i as int), fv);
                assert(self@.fields.take(i as int).push(fv) =~= self@.fields.take(i as int + 1));
                assert(out@ =~= header + spec_encode_fields(self@.fields.take(i as int + 1)));
            }
            i += 1;
        }
        proof {
            assert(self@.fields.take(n as int) =~= self@.fields);
            assert(out@ =~= spec_encode(self@));
        }
        out
    }

    /// Decodes wire bytes back into a message.  Fails with
    /// `CorruptPayload` exactly when the bytes are not the flattened
    /// form of any message.
    pub fn unflatten(buffer: &Vec<u8>) -> (r: Result<Message, ErrorKind>)
        ensures
            (match r {
                Ok(m) => spec_parse(buffer@) == Some(m@) && m@.wf(),
                Err(k) => spec_parse(buffer@) is None && k == ErrorKind::CorruptPayload,
            }),
    {
        let len = buffer.len();
        if len < 5 {
            return Err(ErrorKind::CorruptPayload);
        }
        let what = read_u32(buffer, 0);
        proof {
            assert(buffer@.subrange(0, 4) == buffer@.subrange(0int, 0int + 4));
        }
        let flag = buffer[4];
        let reply_to: Option<i32>;
        let start: usize;
        if flag == 0 {
            reply_to = None;
            start = 5;
        } else if flag == 1 {
            if len < 9 {
                return Err(ErrorKind::CorruptPayload);
            }
            let rp = read_u32(buffer, 5);
            if rp > i32::MAX as u32 {
                return Err(ErrorKind::CorruptPayload);
            }
            reply_to = Some(rp as i32);
            start = 9;
        } else {
            return Err(ErrorKind::CorruptPayload);
        }
        proof {
            assert(spec_parse(buffer@) == (match spec_parse_fields(buffer@.skip(start as int)) {
                Some(fs) => Some(MessageView { what, reply_to, fields: fs }),
                None => None,
            }));
        }
        let mut fields: Vec<(Vec<u8>, u32)> = Vec::new();
        let mut off: usize = start;
        while off < len
            invariant
                len == buffer@.len(),
                off <= len,
                (match reply_to {
                    Some(p) => p >= 0,
                    None => true,
                }),
                forall|k: int|
                    0 <= k < fields@.len() ==> (#[trigger] fields@[k]).0@.len() <= u32::MAX,
                spec_parse(buffer@) == (match spec_parse_fields(buffer@.skip(off as int)) {
                    Some(rest) => Some(MessageView {
                        what,
                        reply_to,
                        fields: fields@.map_values(|p: (Vec<u8>, u32)| (p.0@, p.1)) + rest,
                    }),
                    None => None,
                }),
            decreases len - off,
        {
            let ghost tail = buffer@.skip(off as int);
            proof {
                assert(tail.len() == len - off);
                assert(forall|k: int| 0 <= k < tail.len() ==> tail[k] == buffer@[off + k]);
            }
            if len - off < 8 {
                return Err(ErrorKind::CorruptPayload);
            }
            let nl = read_u32(buffer, off);
            proof {
                assert(tail.subrange(0, 4) =~= buffer@.subrange(off as int, off as int + 4));
            }
            if (nl as u64) > ((len - off - 8) as u64) {
                proof {
                    assert(tail.len() < 8 + spec_u32_from_le_bytes(tail.subrange(0, 4)) as int);
                }
                return Err(ErrorKind::CorruptPayload);
            }
            let nlz = nl as usize;
            let mut name: Vec<u8> = Vec::new();
            let mut j: usize = 0;
            while j < nlz
                invariant
                    j <= nlz,
                    off + 8 + nlz <= len,
                    len == buffer@.len(),
                    name@ == buffer@.subrange(off as int + 4, off as int + 4 + j as int),
                decreases nlz - j,
            {
                name.push(buffer[off + 4 + j]);
                proof {
                    assert(name@ =~= buffer@.subrange(off as int + 4, off as int + 4 + j as int + 1));
                }
                j += 1;
            }
            let value = read_u32(buffer, off + 4 + nlz);
            let ghost old_fields = fields@;
            fields.push((name, value));
            let ghost off2 = off + 8 + nlz;
            proof {
                let nli = nl as int;
                assert(tail.len() >= 8 + nli);
                assert(tail.subrange(4, 4 + nli) =~= buffer@.subrange(
                    off as int + 4,
                    off as int + 4 + nli,
                ));
                assert(tail.subrange(4 + nli, 8 + nli) =~= buffer@.subrange(
                    off as int + 4 + nli,
                    off as int + 4 + nli + 4,
                ));
                assert(tail.skip(8 + nli) =~= buffer@.skip(off2 as int));
                let fname = tail.subrange(4, 4 + nli);
                assert(spec_parse_fields(tail) == (match spec_parse_fields(buffer@.skip(off2 as int)) {
                    Some(rest) => Some(seq![(fname, value)] + rest),
                    None => None,
                }));
                let newv = fields@.map_values(|p: (Vec<u8>, u32)| (p.0@, p.1));
                let oldv = old_fields.map_values(|p: (Vec<u8>, u32)| (p.0@, p.1));
                assert(newv =~= oldv.push((fname, value)));
                if spec_parse_fields(buffer@.skip(off2 as int)) is Some {
                    let rest = spec_parse_fields(buffer@.skip(off2 as int)).unwrap();
                    assert(oldv + (seq![(fname, value)] + rest) =~= newv + rest);
                }
            }
            off = off + 8 + nlz;
        }
        proof {
            assert(buffer@.skip(off as int).len() == 0);
            assert(spec_parse_fields(buffer@.skip(off as int)) == Some(Seq::<(Seq<u8>, u32)>::empty()));
        }
        let m = Message { what, reply_to, fields };
        proof {
            let mv = m@;
            assert(mv.fields =~= fields@.map_values(|p: (Vec<u8>, u32)| (p.0@, p.1))
                + Seq::<(Seq<u8>, u32)>::empty());
            assert(spec_parse(buffer@) == Some(mv));
            assert(mv.wf());
        }
        Ok(m)
    }
}

} // verus!
