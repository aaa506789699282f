//! Domain names: sequences of length-prefixed labels, possibly ending in a
//! compression pointer into the enclosing message.
use vstd::prelude::*;
use vstd::slice::{slice_subrange, slice_to_vec};
use crate::error::DnsError;
use crate::wire::push_bytes;

verus! {

/// The longest label that a length byte can announce.
pub const MAX_LABEL_LEN: usize = 63;

/// The value of a pointer field that marks a pointer (`0b11` in the two high bits).
pub const POINTER_MARK: u8 = 0xC0;

/// The bits of a length byte that give the length of its label.
pub const LENGTH_MASK: u8 = 0x3f;

/// A name: its labels, then either the root label or a pointer to the offset
/// in the enclosing message where the rest of the name stands.
#[derive(Debug, Clone, PartialEq, Eq)]
pub struct Name {
    pub parts: Vec<Vec<u8>>,
    pub pointer: Option<u16>,
}

pub ghost struct NameView {
    pub labels: Seq<Seq<u8>>,
    pub pointer: Option<u16>,
}

impl View for Name {
    type V = NameView;

    open spec fn view(&self) -> NameView {
        NameView { labels: self.parts@.map_values(|p: Vec<u8>| p@), pointer: self.pointer }
    }
}

/// The encoding of each label: its length byte, then its bytes.
pub open spec fn labels_bytes(ls: Seq<Seq<u8>>) -> Seq<u8>
    decreases ls.len(),
{
    if ls.len() == 0 {
        Seq::empty()
    } else {
        seq![ls[0].len() as u8] + ls[0] + labels_bytes(ls.drop_first())
    }
}

/// The two bytes of a pointer to `offset`.
pub open spec fn pointer_bytes(offset: u16) -> Seq<u8> {
    seq![POINTER_MARK | (offset / 256) as u8, (offset % 256) as u8]
}

impl NameView {
    /// Every label holds 1 to 63 bytes, and a pointer fits in 14 bits.
    pub open spec fn is_valid(self) -> bool {
        &&& forall|i: int|
            0 <= i < self.labels.len() ==> 1 <= #[trigger] self.labels[i].len() <= MAX_LABEL_LEN
        &&& self.pointer matches Some(p) ==> p < 0x4000
    }

    /// The bytes of the name on the wire.
    pub open spec fn spec_bytes(self) -> Seq<u8> {
        labels_bytes(self.labels) + match self.pointer {
            None => seq![0u8],
            Some(p) => pointer_bytes(p),
        }
    }

    /// The labels of the name with its pointer, if any, followed through `msg`.
    pub open spec fn expanded(self, msg: Seq<u8>) -> Option<Seq<Seq<u8>>> {
        continue_with(msg, self.labels, self.pointer)
    }
}

/// The labels `ls`, followed by what the pointer `next` leads to in `msg`.
pub open spec fn continue_with(msg: Seq<u8>, ls: Seq<Seq<u8>>, next: Option<u16>) -> Option<
    Seq<Seq<u8>>,
> {
    match next {
        None => Some(ls),
        Some(p) => match expand_at(msg, p as int) {
            Some(rest) => Some(ls + rest),
            None => None,
        },
    }
}

/// `ls` put before the labels of a parse result.
pub open spec fn prepend(ls: Seq<Seq<u8>>, r: Option<(NameView, int)>) -> Option<(NameView, int)> {
    match r {
        None => None,
        Some((n, e)) => Some((NameView { labels: ls + n.labels, pointer: n.pointer }, e)),
    }
}

/// The labels and the final root or pointer that start at `pos` in `b`, with
/// the position just past them; `None` where the bytes do not hold a name.
pub open spec fn parse_labels(b: Seq<u8>, pos: int) -> Option<(NameView, int)>
    decreases b.len() - pos,
{
    if pos < 0 || pos >= b.len() {
        None
    } else if b[pos] == 0 {
        Some((NameView { labels: Seq::empty(), pointer: None }, pos + 1))
    } else if b[pos] & POINTER_MARK == POINTER_MARK {
        if pos + 2 > b.len() {
            None
        } else {
            let p = ((b[pos] & LENGTH_MASK) as int * 256 + b[pos + 1] as int) as u16;
            Some((NameView { labels: Seq::empty(), pointer: Some(p) }, pos + 2))
        }
    } else {
        let end = pos + 1 + (b[pos] & LENGTH_MASK) as int;
        if end > b.len() {
            None
        } else {
            prepend(seq![b.subrange(pos + 1, end)], parse_labels(b, end))
        }
    }
}

/// The name that starts at `pos` in the message `b`: as `parse_labels`, and
/// a pointer must lead strictly backward, before `pos`.
pub open spec fn parse_name(b: Seq<u8>, pos: int) -> Option<(NameView, int)> {
    match parse_labels(b, pos) {
        Some((n, e)) => if n.pointer matches Some(p) && p >= pos {
            None
        } else {
            Some((n, e))
        },
        None => None,
    }
}

/// The labels of the name at `pos` in `b` with every pointer followed; each
/// pointer must lead before the name that holds it, so the walk ends.
pub open spec fn expand_at(b: Seq<u8>, pos: int) -> Option<Seq<Seq<u8>>>
    decreases pos,
{
    match parse_name(b, pos) {
        None => None,
        Some((n, _)) => match n.pointer {
            None => Some(n.labels),
            Some(p) => if 0 <= p < pos {
                match expand_at(b, p as int) {
                    Some(rest) => Some(n.labels + rest),
                    None => None,
                }
            } else {
                None
            },
        },
    }
}

proof fn lemma_labels_bytes_push(ls: Seq<Seq<u8>>, l: Seq<u8>)
    ensures
        labels_bytes(ls.push(l)) == labels_bytes(ls) + seq![l.len() as u8] + l,
    decreases ls.len(),
{
    if ls.len() == 0 {
        assert(ls.push(l).drop_first() =~= Seq::<Seq<u8>>::empty());
        assert(ls.push(l)[0] == l);
        assert(labels_bytes(Seq::<Seq<u8>>::empty()) == Seq::<u8>::empty());
        assert(labels_bytes(ls) == Seq::<u8>::empty());
        assert(labels_bytes(ls.push(l)) =~= labels_bytes(ls) + seq![l.len() as u8] + l);
    } else {
        assert(ls.push(l).drop_first() =~= ls.drop_first().push(l));
        lemma_labels_bytes_push(ls.drop_first(), l);
        assert(labels_bytes(ls.push(l)) =~= labels_bytes(ls) + seq![l.len() as u8] + l);
    }
}

/// Reading back the bytes of a valid name without a pointer, wherever they
/// stand, gives its labels and the position just past them.
pub proof fn lemma_parse_labels_of_bytes(ls: Seq<Seq<u8>>, b: Seq<u8>, pos: int)
    requires
        (NameView { labels: ls, pointer: None }).is_valid(),
        0 <= pos,
        pos + labels_bytes(ls).len() + 1 <= b.len(),
        b.subrange(pos, pos + labels_bytes(ls).len() + 1) == labels_bytes(ls) + seq![0u8],
    ensures
        parse_labels(b, pos) == Some(
            (NameView { labels: ls, pointer: None }, pos + labels_bytes(ls).len() + 1),
        ),
    decreases ls.len(),
{
    let enc = labels_bytes(ls) + seq![0u8];
    assert(b[pos] == enc[0]);
    if ls.len() == 0 {
        assert(labels_bytes(ls) == Seq::<u8>::empty());
        assert(ls =~= Seq::<Seq<u8>>::empty());
        assert(b[pos] == 0);
    } else {
        let l = ls[0];
        let n = l.len() as int;
        let x = l.len() as u8;
        let rest = ls.drop_first();
        let end = pos + 1 + n;
        let nv = NameView { labels: ls, pointer: None };
        assert(nv.labels[0] == l);
        assert(1 <= nv.labels[0].len() <= MAX_LABEL_LEN);
        assert(x & POINTER_MARK != POINTER_MARK && x != 0 && x & LENGTH_MASK == x) by (bit_vector)
            requires 1 <= x <= 63;
        assert(labels_bytes(ls) == seq![x] + l + labels_bytes(rest));
        assert(enc[0] == x);
        assert(b[pos] == x);
        assert(x as int == n);
        assert(b.subrange(pos + 1, end) =~= enc.subrange(1, 1 + n));
        assert(enc.subrange(1, 1 + n) =~= l);
        assert(b.subrange(end, end + labels_bytes(rest).len() + 1) =~= enc.subrange(
            1 + n,
            enc.len() as int,
        ));
        assert(enc.subrange(1 + n, enc.len() as int) =~= labels_bytes(rest) + seq![0u8]);
        assert forall|i: int| 0 <= i < rest.len() implies 1 <= #[trigger] rest[i].len()
            <= MAX_LABEL_LEN by {
            assert(rest[i] == ls[i + 1]);
        }
        lemma_parse_labels_of_bytes(rest, b, end);
        assert(seq![l] + rest =~= ls);
        assert(parse_labels(b, pos) == prepend(seq![l], parse_labels(b, end)));
    }
}

/// Decoding the encoding of a valid name without a pointer gives the name back:
/// what `Name::write` appends, `Name::read` reads back as the same name.
pub proof fn lemma_name_round_trip(n: NameView)
    requires
        n.is_valid(),
        n.pointer is None,
    ensures
        parse_name(n.spec_bytes(), 0) == Some((n, n.spec_bytes().len() as int)),
{
    let b = n.spec_bytes();
    assert(b.subrange(0, b.len() as int) =~= b);
    lemma_parse_labels_of_bytes(n.labels, b, 0);
}

/// Where the name at `pos` is a bare pointer to offset `k`, following it
/// gives the labels of the name at `k`, followed in turn.
pub proof fn lemma_pointer_expansion(b: Seq<u8>, pos: int, k: u16, e: int)
    requires
        parse_name(b, pos) == Some((NameView { labels: Seq::empty(), pointer: Some(k) }, e)),
        parse_name(b, k as int) is Some,
    ensures
        parse_name(b, pos).unwrap().0.expanded(b) == parse_name(b, k as int).unwrap().0.expanded(
            b,
        ),
        parse_name(b, pos).unwrap().0.expanded(b) == expand_at(b, k as int),
{
    let n2 = parse_name(b, k as int).unwrap().0;
    match expand_at(b, k as int) {
        Some(rest) => {
            assert(Seq::<Seq<u8>>::empty() + rest =~= rest);
        },
        None => {},
    }
    match n2.pointer {
        Some(q) => {
            assert(q < k);
        },
        None => {},
    }
}

/// A copy of each label.
fn copy_parts(parts: &Vec<Vec<u8>>) -> (r: Vec<Vec<u8>>)
    ensures
        r@.map_values(|v: Vec<u8>| v@) == parts@.map_values(|v: Vec<u8>| v@),
{
    let mut r: Vec<Vec<u8>> = Vec::new();
    let mut i: usize = 0;
    while i < parts.len()
        invariant
            i <= parts@.len(),
            r@.map_values(|v: Vec<u8>| v@) == parts@.map_values(|v: Vec<u8>| v@).take(i as int),
        decreases parts@.len() - i,
    {
        let ghost before = r@.map_values(|v: Vec<u8>| v@);
        r.push(slice_to_vec(parts[i].as_slice()));
        assert(r@.map_values(|v: Vec<u8>| v@) =~= before.push(parts@[i as int]@));
        i = i + 1;
        assert(r@.map_values(|v: Vec<u8>| v@) =~= parts@.map_values(|v: Vec<u8>| v@).take(
            i as int,
        ));
    }
    assert(parts@.map_values(|v: Vec<u8>| v@).take(i as int) =~= parts@.map_values(
        |v: Vec<u8>| v@,
    ));
    r
}

impl Name {
    /// Whether every label holds 1 to 63 bytes and a pointer fits in 14 bits,
    /// which `write` requires.
    pub fn is_valid(&self) -> (r: bool)
        ensures
            r == self@.is_valid(),
    {
        let mut i: usize = 0;
        while i < self.parts.len()
            invariant
                i <= self.parts@.len(),
                forall|j: int| 0 <= j < i ==> 1 <= #[trigger] self@.labels[j].len() <= MAX_LABEL_LEN,
            decreases self.parts@.len() - i,
        {
            let n = self.parts[i].len();
            assert(self@.labels[i as int] == self.parts@[i as int]@);
            if n < 1 || n > MAX_LABEL_LEN {
                return false;
            }
            i = i + 1;
        }
        match self.pointer {
            Some(p) => p < 0x4000,
            None => true,
        }
    }

    /// A name with the same labels and pointer.
    pub fn copy(&self) -> (r: Name)
        ensures
            r@ == self@,
    {
        Name { parts: copy_parts(&self.parts), pointer: self.pointer }
    }

    /// The name with its pointer, if any, followed through the message `msg`
    /// that it was read from, so that it holds literal labels only.
    pub fn resolve(&self, msg: &[u8]) -> (r: Result<Name, DnsError>)
        ensures
            match self@.expanded(msg@) {
                Some(ls) => r matches Ok(n) && n@ == (NameView { labels: ls, pointer: None }),
                None => r == Err::<Name, DnsError>(DnsError::MalformedInput),
            },
    {
        let mut parts = copy_parts(&self.parts);
        let mut next = self.pointer;
        loop
            invariant
                self@.expanded(msg@) == continue_with(
                    msg@,
                    parts@.map_values(|v: Vec<u8>| v@),
                    next,
                ),
            decreases
                match next {
                    Some(p) => p as int + 1,
                    None => 0,
                },
        {
            let ghost pv = parts@.map_values(|v: Vec<u8>| v@);
            match next {
                None => {
                    return Ok(Name { parts, pointer: None });
                },
                Some(p) => {
                    let mut at = p as usize;
                    match Name::read(msg, &mut at) {
                        Err(e) => {
                            return Err(e);
                        },
                        Ok(seg) => {
                            let ghost sv = seg@;
                            let mut seg_parts = seg.parts;
                            parts.append(&mut seg_parts);
                            next = seg.pointer;
                            assert(parts@.map_values(|v: Vec<u8>| v@) =~= pv + sv.labels);
                            proof {
                                if let Some(q) = sv.pointer {
                                    match expand_at(msg@, q as int) {
                                        Some(rest) => {
                                            assert(pv + (sv.labels + rest) =~= (pv + sv.labels)
                                                + rest);
                                        },
                                        None => {},
                                    }
                                }
                            }
                        },
                    }
                },
            }
        }
    }
    /// Appends the name to `buf`: each label, then the root label or the pointer.
    pub fn write(&self, buf: &mut Vec<u8>)
        requires
            self@.is_valid(),
        ensures
            final(buf)@ == old(buf)@ + self@.spec_bytes(),
    {
        let ghost ls = self@.labels;
        let mut i: usize = 0;
        while i < self.parts.len()
            invariant
                i <= self.parts@.len(),
                ls == self@.labels,
                self@.is_valid(),
                buf@ == old(buf)@ + labels_bytes(ls.take(i as int)),
            decreases self.parts@.len() - i,
        {
            let part = &self.parts[i];
            assert(ls[i as int] == part@);
            buf.push(part.len() as u8);
            push_bytes(buf, part.as_slice());
            proof {
                lemma_labels_bytes_push(ls.take(i as int), part@);
                assert(ls.take(i as int).push(part@) =~= ls.take(i + 1));
            }
            i = i + 1;
            assert(buf@ =~= old(buf)@ + labels_bytes(ls.take(i as int)));
        }
        assert(ls.take(i as int) =~= ls);
        match self.pointer {
            None => buf.push(0),
            Some(p) => {
                buf.push(POINTER_MARK | (p / 256) as u8);
                buf.push((p % 256) as u8);
            },
        }
        assert(buf@ =~= old(buf)@ + self@.spec_bytes());
    }

    /// Reads the name that starts at `*pos` in the message `buf` and moves
    /// `*pos` past it; a pointer is kept, not followed.
    pub fn read(buf: &[u8], pos: &mut usize) -> (r: Result<Name, DnsError>)
        ensures
            match parse_name(buf@, *old(pos) as int) {
                Some((n, e)) => r matches Ok(name) && name@ == n && *final(pos) as int == e,
                None => r == Err::<Name, DnsError>(DnsError::MalformedInput),
            },
            r is Ok ==> *final(pos) <= buf@.len(),
    {
        let start = *pos;
        if start >= buf.len() {
            return Err(DnsError::MalformedInput);
        }
        let mut p = start;
        let mut parts: Vec<Vec<u8>> = Vec::new();
        loop
            invariant
                start == *old(pos),
                start <= p <= buf@.len(),
                parse_labels(buf@, start as int) == prepend(
                    parts@.map_values(|v: Vec<u8>| v@),
                    parse_labels(buf@, p as int),
                ),
            decreases buf@.len() - p,
        {
            let ghost pv = parts@.map_values(|v: Vec<u8>| v@);
            if p >= buf.len() {
                return Err(DnsError::MalformedInput);
            }
            let b = buf[p];
            if b == 0 {
                *pos = p + 1;
                let name = Name { parts, pointer: None };
                assert(name@.labels =~= pv + Seq::<Seq<u8>>::empty());
                return Ok(name);
            } else if b & POINTER_MARK == POINTER_MARK {
                if buf.len() - p < 2 {
                    return Err(DnsError::MalformedInput);
                }
                let target = (b & LENGTH_MASK) as u16 * 256 + buf[p + 1] as u16;
                if target as usize >= start {
                    return Err(DnsError::MalformedInput);
                }
                *pos = p + 2;
                let name = Name { parts, pointer: Some(target) };
                assert(name@.labels =~= pv + Seq::<Seq<u8>>::empty());
                return Ok(name);
            }
            let len = (b & LENGTH_MASK) as usize;
            if buf.len() - p - 1 < len {
                return Err(DnsError::MalformedInput);
            }
            let label = slice_to_vec(slice_subrange(buf, p + 1, p + 1 + len));
            let ghost lv = label@;
            parts.push(label);
            p = p + 1 + len;
            assert(parts@.map_values(|v: Vec<u8>| v@) =~= pv + seq![lv]);
            assert(pv + (seq![lv] + Seq::<Seq<u8>>::empty()) =~= pv + seq![lv]);
            proof {
                match parse_labels(buf@, p as int) {
                    Some((n, e)) => {
                        assert(pv + (seq![lv] + n.labels) =~= (pv + seq![lv]) + n.labels);
                    },
                    None => {},
                }
            }
        }
    }
}

} // verus!
