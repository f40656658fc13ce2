//! The properties codec: the name→bytes metadata map carried inside READY
//! commands during the handshake.
//!
//! Keys are case-insensitive by contract: every read and write folds the key
//! to ASCII lowercase first. On the wire a map is a flat run of entries,
//! `[1-octet name length][name][4-octet big-endian value length][value]`,
//! repeated until the buffer is exhausted.

use crate::bytes::{
    append_bytes, be32_of, bytes_eq, copy_range, lower, lower_bytes, push_u32_be, spec_u32_be,
};
use vstd::prelude::*;

verus! {

/// A reason a byte string failed to parse as a properties map.
#[derive(Clone, Copy, Debug, PartialEq, Eq, Structural)]
pub enum PropertiesParseError {
    /// The input slice vanished mid-entry (kept for taxonomy completeness;
    /// the sequential decoder below reports a more specific error instead).
    EmptySlice,
    /// An entry declared a name length of zero.
    ZeroSizedName,
    /// A name held a byte outside the permitted set.
    NameInvalidChar,
    /// A declared name length exceeded the remaining bytes.
    NameSizeIncorrect,
    /// The input ended inside a four-octet value-length field.
    ValueSizeIncomplete,
    /// A declared value length exceeded the remaining bytes.
    ValueSizeIncorrect,
}

/// Whether `b` may appear in a property name: ASCII alphanumerics and
/// `-`, `_`, `.`, `+`.
pub open spec fn is_prop_name_byte(b: u8) -> bool {
    ||| 0x41 <= b <= 0x5A
    ||| 0x61 <= b <= 0x7A
    ||| 0x30 <= b <= 0x39
    ||| b == 0x2D
    ||| b == 0x5F
    ||| b == 0x2E
    ||| b == 0x2B
}

/// Whether every byte of `s` may appear in a property name.
pub open spec fn valid_prop_name(s: Seq<u8>) -> bool {
    forall|i: int| 0 <= i < s.len() ==> is_prop_name_byte(s[i])
}

/// Checks every byte of a property name against the permitted set.
fn check_prop_name(s: &[u8]) -> (r: bool)
    ensures
        r == valid_prop_name(s@),
{
    let mut i: usize = 0;
    while i < s.len()
        invariant
            i <= s@.len(),
            forall|j: int| 0 <= j < i ==> is_prop_name_byte(s@[j]),
        decreases s@.len() - i,
    {
        let b = s[i];
        let ok = (0x41 <= b && b <= 0x5A) || (0x61 <= b && b <= 0x7A) || (0x30 <= b && b <= 0x39)
            || b == 0x2D || b == 0x5F || b == 0x2E || b == 0x2B;
        if !ok {
            return false;
        }
        i = i + 1;
    }
    true
}

/// One name→value entry of a properties map.
#[derive(Clone, Debug)]
pub struct PropertyEntry {
    pub name: Vec<u8>,
    pub value: Vec<u8>,
}

/// A metadata map with case-insensitive keys, stored as a list of entries
/// whose names are already lowercased and pairwise distinct.
#[derive(Clone, Debug)]
pub struct Properties {
    entries: Vec<PropertyEntry>,
}

/// The key→value pairs that result from folding a run of entries into an
/// accumulator map, lowercasing each name, later entries overwriting earlier
/// ones.
pub open spec fn props_map_from(
    acc: Map<Seq<u8>, Seq<u8>>,
    es: Seq<(Seq<u8>, Seq<u8>)>,
) -> Map<Seq<u8>, Seq<u8>>
    decreases es.len(),
{
    if es.len() == 0 {
        acc
    } else {
        props_map_from(acc.insert(lower(es.first().0), es.first().1), es.drop_first())
    }
}

/// Entries whose names are lowercased and pairwise distinct.
pub open spec fn props_wf(es: Seq<(Seq<u8>, Seq<u8>)>) -> bool {
    &&& forall|i: int| 0 <= i < es.len() ==> lower((#[trigger] es[i]).0) == es[i].0
    &&& forall|i: int, j: int|
        0 <= i < j < es.len() ==> (#[trigger] es[i]).0 != (#[trigger] es[j]).0
}

/// Entries that the wire format can carry: a name of 1 to 255 bytes and a
/// value of at most 2^32 - 1 bytes.
pub open spec fn props_encodable(es: Seq<(Seq<u8>, Seq<u8>)>) -> bool {
    forall|i: int|
        0 <= i < es.len() ==> 1 <= (#[trigger] es[i]).0.len() <= 255 && es[i].1.len() <= u32::MAX
}

/// The wire encoding of one entry.
pub open spec fn spec_entry_bytes(e: (Seq<u8>, Seq<u8>)) -> Seq<u8> {
    seq![e.0.len() as u8] + e.0 + spec_u32_be(e.1.len() as u32) + e.1
}

/// The wire encoding of a run of entries.
pub open spec fn spec_props_bytes(es: Seq<(Seq<u8>, Seq<u8>)>) -> Seq<u8>
    decreases es.len(),
{
    if es.len() == 0 {
        Seq::empty()
    } else {
        spec_entry_bytes(es.first()) + spec_props_bytes(es.drop_first())
    }
}

/// Parses a run of entries from `s` into the accumulator `acc`, yielding the
/// resulting map or the first error the decoder encounters.
pub open spec fn spec_props_parse(s: Seq<u8>, acc: Map<Seq<u8>, Seq<u8>>) -> Result<
    Map<Seq<u8>, Seq<u8>>,
    PropertiesParseError,
>
    decreases s.len(),
{
    if s.len() == 0 {
        Ok(acc)
    } else {
        let nlen = s[0] as int;
        if nlen == 0 {
            Err(PropertiesParseError::ZeroSizedName)
        } else if s.len() - 1 < nlen {
            Err(PropertiesParseError::NameSizeIncorrect)
        } else if !valid_prop_name(s.subrange(1, 1 + nlen)) {
            Err(PropertiesParseError::NameInvalidChar)
        } else if s.len() - 1 - nlen < 4 {
            Err(PropertiesParseError::ValueSizeIncomplete)
        } else {
            let vlen = be32_of(s[1 + nlen], s[2 + nlen], s[3 + nlen], s[4 + nlen]) as int;
            if s.len() - 5 - nlen < vlen {
                Err(PropertiesParseError::ValueSizeIncorrect)
            } else {
                spec_props_parse(
                    s.subrange(5 + nlen + vlen, s.len() as int),
                    acc.insert(
                        lower(s.subrange(1, 1 + nlen)),
                        s.subrange(5 + nlen, 5 + nlen + vlen),
                    ),
                )
            }
        }
    }
}

// ---------------------------------------------------------------------------
// Lemmas about the map fold
// ---------------------------------------------------------------------------

/// Inserting a key that no entry mentions commutes with the fold.
proof fn lemma_map_from_insert_commutes(
    acc: Map<Seq<u8>, Seq<u8>>,
    es: Seq<(Seq<u8>, Seq<u8>)>,
    k: Seq<u8>,
    v: Seq<u8>,
)
    requires
        forall|i: int| 0 <= i < es.len() ==> lower(#[trigger] es[i].0) != k,
    ensures
        props_map_from(acc.insert(k, v), es) == props_map_from(acc, es).insert(k, v),
    decreases es.len(),
{
    if es.len() > 0 {
        let k0 = lower(es.first().0);
        let v0 = es.first().1;
        assert(es[0].0 == es.first().0);
        assert(k0 != k);
        assert(acc.insert(k, v).insert(k0, v0) =~= acc.insert(k0, v0).insert(k, v));
        assert(forall|i: int|
            0 <= i < es.drop_first().len() ==> lower(#[trigger] es.drop_first()[i].0) != k);
        lemma_map_from_insert_commutes(acc.insert(k0, v0), es.drop_first(), k, v);
    }
}

/// A key that no entry mentions is untouched by the fold.
proof fn lemma_map_from_missing(acc: Map<Seq<u8>, Seq<u8>>, es: Seq<(Seq<u8>, Seq<u8>)>, k: Seq<u8>)
    requires
        forall|i: int| 0 <= i < es.len() ==> lower(#[trigger] es[i].0) != k,
    ensures
        props_map_from(acc, es).contains_key(k) == acc.contains_key(k),
        acc.contains_key(k) ==> props_map_from(acc, es)[k] == acc[k],
    decreases es.len(),
{
    if es.len() > 0 {
        assert(es[0].0 == es.first().0);
        assert(forall|i: int|
            0 <= i < es.drop_first().len() ==> lower(#[trigger] es.drop_first()[i].0) != k);
        lemma_map_from_missing(acc.insert(lower(es.first().0), es.first().1), es.drop_first(), k);
    }
}

/// The last entry carrying a given key decides that key's value in the fold.
proof fn lemma_map_from_found(acc: Map<Seq<u8>, Seq<u8>>, es: Seq<(Seq<u8>, Seq<u8>)>, i: int)
    requires
        0 <= i < es.len(),
        forall|j: int| i < j < es.len() ==> lower(#[trigger] es[j].0) != lower(es[i].0),
    ensures
        props_map_from(acc, es).contains_key(lower(es[i].0)),
        props_map_from(acc, es)[lower(es[i].0)] == es[i].1,
    decreases es.len(),
{
    let k = lower(es[i].0);
    let acc1 = acc.insert(lower(es.first().0), es.first().1);
    if i == 0 {
        assert(es[0].0 == es.first().0);
        assert(forall|j: int|
            0 <= j < es.drop_first().len() ==> lower(#[trigger] es.drop_first()[j].0) != k);
        lemma_map_from_missing(acc1, es.drop_first(), k);
        assert(acc1.contains_key(k) && acc1[k] == es[i].1);
    } else {
        assert(es.drop_first()[i - 1] == es[i]);
        assert(forall|j: int|
            i - 1 < j < es.drop_first().len() ==> lower(#[trigger] es.drop_first()[j].0) != lower(
                es.drop_first()[i - 1].0,
            ));
        lemma_map_from_found(acc1, es.drop_first(), i - 1);
    }
}

/// Lookups are case-insensitive: after an insert under one spelling of a
/// key, a lookup under any spelling with the same lowercase form finds the
/// inserted value.
pub proof fn lemma_case_insensitive_lookup(
    m: Map<Seq<u8>, Seq<u8>>,
    k1: Seq<u8>,
    k2: Seq<u8>,
    v: Seq<u8>,
)
    requires
        lower(k1) == lower(k2),
    ensures
        m.insert(lower(k1), v).contains_key(lower(k2)),
        m.insert(lower(k1), v)[lower(k2)] == v,
{
}

impl View for Properties {
    type V = Map<Seq<u8>, Seq<u8>>;

    open spec fn view(&self) -> Map<Seq<u8>, Seq<u8>> {
        props_map_from(Map::empty(), self.entries_view())
    }
}

impl Properties {
    /// The stored entries, as (name, value) byte strings.
    pub closed spec fn entries_view(&self) -> Seq<(Seq<u8>, Seq<u8>)> {
        self.entries@.map_values(|e: PropertyEntry| (e.name@, e.value@))
    }

    /// The internal invariant: names lowercased and pairwise distinct.
    pub open spec fn wf(&self) -> bool {
        props_wf(self.entries_view())
    }

    /// An empty properties map.
    pub fn new() -> (r: Properties)
        ensures
            r.wf(),
            r@ == Map::<Seq<u8>, Seq<u8>>::empty(),
            r.entries_view() == Seq::<(Seq<u8>, Seq<u8>)>::empty(),
    {
        let r = Properties { entries: Vec::new() };
        assert(r.entries_view() =~= Seq::<(Seq<u8>, Seq<u8>)>::empty());
        r
    }

    /// Looks up a property; the key is lowercased first.
    pub fn get(&self, key: &[u8]) -> (r: Option<Vec<u8>>)
        requires
            self.wf(),
        ensures
            match r {
                Some(v) => self@.contains_key(lower(key@)) && v@ == self@[lower(key@)],
                None => !self@.contains_key(lower(key@)),
            },
    {
        let lk = lower_bytes(key);
        let ghost es = self.entries_view();
        let mut i: usize = 0;
        while i < self.entries.len()
            invariant
                i <= es.len(),
                es == self.entries_view(),
                es.len() == self.entries@.len(),
                self.wf(),
                lk@ == lower(key@),
                forall|j: int| 0 <= j < i ==> (#[trigger] es[j]).0 != lk@,
            decreases es.len() - i,
        {
            assert(es[i as int] == (self.entries@[i as int].name@, self.entries@[i as int].value@));
            if bytes_eq(self.entries[i].name.as_slice(), lk.as_slice()) {
                assert(es[i as int].0 == lk@);
                proof {
                    assert forall|j: int|
                        i < j < es.len() implies lower((#[trigger] es[j]).0) != lower(
                        es[i as int].0,
                    ) by {
                        assert(lower(es[j].0) == es[j].0);
                        assert(lower(es[i as int].0) == es[i as int].0);
                        assert(es[i as int].0 != es[j].0);
                    }
                    crate::bytes::lemma_lower_idempotent(key@);
                    assert(lower(es[i as int].0) == lower(key@));
                    lemma_map_from_found(Map::empty(), es, i as int);
                }
                let value_len = self.entries[i].value.len();
                let v = copy_range(self.entries[i].value.as_slice(), 0, value_len);
                assert(v@ =~= es[i as int].1);
                return Some(v);
            }
            i = i + 1;
        }
        proof {
            assert(forall|j: int| 0 <= j < es.len() ==> lower(#[trigger] es[j].0) != lower(key@));
            lemma_map_from_missing(Map::empty(), es, lower(key@));
        }
        None
    }

    /// Inserts a property; the key is lowercased first, and an existing
    /// entry under the same lowercased key is overwritten.
    pub fn insert(&mut self, key: Vec<u8>, value: Vec<u8>)
        requires
            old(self).wf(),
        ensures
            final(self).wf(),
            final(self)@ == old(self)@.insert(lower(key@), value@),
            old(self)@.contains_key(lower(key@)) || final(self).entries_view() == old(
                self,
            ).entries_view().push((lower(key@), value@)),
    {
        let lk = lower_bytes(key.as_slice());
        let ghost es = old(self).entries_view();
        let mut i: usize = 0;
        while i < self.entries.len()
            invariant
                i <= es.len(),
                es == self.entries_view(),
                es.len() == self.entries@.len(),
                self == old(self),
                props_wf(es),
                lk@ == lower(key@),
                forall|j: int| 0 <= j < i ==> (#[trigger] es[j]).0 != lk@,
            decreases es.len() - i,
        {
            assert(es[i as int] == (self.entries@[i as int].name@, self.entries@[i as int].value@));
            if bytes_eq(self.entries[i].name.as_slice(), lk.as_slice()) {
                proof {
                    assert(es[i as int].0 == lk@);
                    assert forall|j: int|
                        i < j < es.len() implies lower((#[trigger] es[j]).0) != lower(
                        es[i as int].0,
                    ) by {
                        assert(lower(es[j].0) == es[j].0);
                        assert(lower(es[i as int].0) == es[i as int].0);
                        assert(es[i as int].0 != es[j].0);
                    }
                    lemma_map_from_found(Map::empty(), es, i as int);
                }
                self.entries[i] = PropertyEntry { name: lk, value };
                proof {
                    let es2 = self.entries_view();
                    assert(es2 =~= es.update(i as int, (es[i as int].0, value@)));
                    lemma_map_from_update(Map::empty(), es, i as int, value@);
                    assert forall|j: int| 0 <= j < es2.len() implies lower((#[trigger] es2[j]).0)
                        == es2[j].0 by {
                        assert(es2[j].0 == es[j].0);
                        assert(lower(es[j].0) == es[j].0);
                    }
                    assert forall|a: int, b: int| 0 <= a < b < es2.len() implies (
                    #[trigger] es2[a]).0 != (#[trigger] es2[b]).0 by {
                        assert(es2[a].0 == es[a].0 && es2[b].0 == es[b].0);
                        assert(es[a].0 != es[b].0);
                    }
                }
                return ;
            }
            i = i + 1;
        }
        proof {
            assert(forall|j: int| 0 <= j < es.len() ==> (#[trigger] es[j]).0 != lk@);
        }
        self.entries.push(PropertyEntry { name: lk, value });
        proof {
            let es2 = self.entries_view();
            assert(es2 =~= es.push((lower(key@), value@)));
            lemma_map_from_push(Map::empty(), es, lower(key@), value@);
            crate::bytes::lemma_lower_idempotent(key@);
            assert forall|j: int| 0 <= j < es.len() implies lower((#[trigger] es[j]).0) != lower(
                key@,
            ) by {
                assert(lower(es[j].0) == es[j].0);
                assert(es[j].0 != lk@);
            }
            lemma_map_from_missing(Map::empty(), es, lower(key@));
            assert forall|j: int| 0 <= j < es2.len() implies lower((#[trigger] es2[j]).0)
                == es2[j].0 by {
                if j < es.len() {
                    assert(es2[j] == es[j]);
                    assert(lower(es[j].0) == es[j].0);
                } else {
                    assert(es2[j].0 == lower(key@));
                }
            }
            assert forall|a: int, b: int| 0 <= a < b < es2.len() implies (#[trigger] es2[a]).0 != (
            #[trigger] es2[b]).0 by {
                if b < es.len() {
                    assert(es2[a] == es[a] && es2[b] == es[b]);
                    assert(es[a].0 != es[b].0);
                } else {
                    assert(es2[a] == es[a]);
                    assert(es2[b].0 == lower(key@));
                    assert(es[a].0 != lk@);
                }
            }
        }
    }

    /// Decodes a properties map from a flat byte buffer, walking entries
    /// until the buffer is exhausted. Keys are lowercased on insertion.
    pub fn parse_from_slice(bytes: &[u8]) -> (r: Result<Properties, PropertiesParseError>)
        ensures
            match r {
                Ok(p) => p.wf() && spec_props_parse(bytes@, Map::empty()) == Ok::<
                    Map<Seq<u8>, Seq<u8>>,
                    PropertiesParseError,
                >(p@),
                Err(e) => spec_props_parse(bytes@, Map::empty()) == Err::<
                    Map<Seq<u8>, Seq<u8>>,
                    PropertiesParseError,
                >(e),
            },
    {
        let len = bytes.len();
        let mut props = Properties::new();
        let mut off: usize = 0;
        assert(bytes@.subrange(0, len as int) =~= bytes@);
        loop
            invariant
                off <= len,
                len == bytes@.len(),
                props.wf(),
                spec_props_parse(bytes@, Map::empty()) == spec_props_parse(
                    bytes@.subrange(off as int, len as int),
                    props@,
                ),
            decreases len - off,
        {
            let ghost rem = bytes@.subrange(off as int, len as int);
            if off == len {
                assert(rem.len() == 0);
                return Ok(props);
            }
            let remaining = len - off;
            let nlen = bytes[off] as usize;
            assert(rem[0] == bytes@[off as int]);
            if nlen == 0 {
                return Err(PropertiesParseError::ZeroSizedName);
            }
            if remaining - 1 < nlen {
                return Err(PropertiesParseError::NameSizeIncorrect);
            }
            let name = copy_range(bytes, off + 1, off + 1 + nlen);
            assert(name@ =~= rem.subrange(1, 1 + nlen as int));
            if !check_prop_name(name.as_slice()) {
                return Err(PropertiesParseError::NameInvalidChar);
            }
            if remaining - 1 - nlen < 4 {
                return Err(PropertiesParseError::ValueSizeIncomplete);
            }
            let b0 = bytes[off + 1 + nlen];
            let b1 = bytes[off + 2 + nlen];
            let b2 = bytes[off + 3 + nlen];
            let b3 = bytes[off + 4 + nlen];
            assert(b0 == rem[1 + nlen as int] && b1 == rem[2 + nlen as int] && b2 == rem[3
                + nlen as int] && b3 == rem[4 + nlen as int]);
            let vlen32: u32 = ((b0 as u32) << 24) | ((b1 as u32) << 16) | ((b2 as u32) << 8) | (
            b3 as u32);
            proof {
                assert(vlen32 <= 0xFFFF_FFFFu32);
            }
            let vlen = vlen32 as usize;
            if remaining - 5 - nlen < vlen {
                return Err(PropertiesParseError::ValueSizeIncorrect);
            }
            let value = copy_range(bytes, off + 5 + nlen, off + 5 + nlen + vlen);
            assert(value@ =~= rem.subrange(5 + nlen as int, 5 + nlen as int + vlen as int));
            props.insert(name, value);
            off = off + 5 + nlen + vlen;
            assert(bytes@.subrange(off as int, len as int) =~= rem.subrange(
                5 + nlen as int + vlen as int,
                rem.len() as int,
            ));
        }
    }

    /// Appends the wire encoding of this map to `out`: one entry per stored
    /// pair, in storage order.
    pub fn write_to(&self, out: &mut Vec<u8>)
        requires
            props_encodable(self.entries_view()),
        ensures
            final(out)@ == old(out)@ + spec_props_bytes(self.entries_view()),
    {
        let ghost es = self.entries_view();
        let mut i: usize = 0;
        while i < self.entries.len()
            invariant
                i <= es.len(),
                es == self.entries_view(),
                es.len() == self.entries@.len(),
                props_encodable(es),
                out@ == old(out)@ + spec_props_bytes(es.subrange(0, i as int)),
            decreases es.len() - i,
        {
            assert(es[i as int] == (self.entries@[i as int].name@, self.entries@[i as int].value@));
            let name_len = self.entries[i].name.len();
            let value_len = self.entries[i].value.len();
            assert(1 <= (es[i as int]).0.len() <= 255 && (es[i as int]).1.len() <= u32::MAX);
            assert(1 <= name_len <= 255 && value_len <= u32::MAX);
            out.push(name_len as u8);
            append_bytes(out, self.entries[i].name.as_slice());
            push_u32_be(out, value_len as u32);
            append_bytes(out, self.entries[i].value.as_slice());
            proof {
                lemma_props_bytes_push(es.subrange(0, i as int), es[i as int]);
                assert(es.subrange(0, i as int).push(es[i as int]) =~= es.subrange(0, i + 1));
                assert(out@ =~= old(out)@ + spec_props_bytes(es.subrange(0, i + 1)));
            }
            i = i + 1;
        }
        assert(es.subrange(0, es.len() as int) =~= es);
    }
}

/// Replacing the entry that already carries a key matches a map insert.
proof fn lemma_map_from_update(
    acc: Map<Seq<u8>, Seq<u8>>,
    es: Seq<(Seq<u8>, Seq<u8>)>,
    i: int,
    v: Seq<u8>,
)
    requires
        props_wf(es),
        0 <= i < es.len(),
    ensures
        props_map_from(acc, es.update(i, (es[i].0, v))) == props_map_from(acc, es).insert(
            es[i].0,
            v,
        ),
    decreases es.len(),
{
    let k = es[i].0;
    let es2 = es.update(i, (k, v));
    if i == 0 {
        assert(es2.first() == (k, v));
        assert(es2.drop_first() =~= es.drop_first());
        assert(forall|j: int|
            0 <= j < es.drop_first().len() ==> lower(#[trigger] es.drop_first()[j].0) != lower(k));
        lemma_map_from_insert_commutes(acc.insert(lower(k), es.first().1), es.drop_first(), lower(k), v);
        lemma_map_from_insert_commutes(acc, es.drop_first(), lower(k), es.first().1);
        assert(acc.insert(lower(k), es.first().1).insert(lower(k), v) =~= acc.insert(lower(k), v));
        lemma_map_from_insert_commutes(acc, es.drop_first(), lower(k), v);
        assert(lower(k) == k);
    } else {
        assert(es2.first() == es.first());
        assert(es2.drop_first() =~= es.drop_first().update(i - 1, (es[i].0, v)));
        assert(es.drop_first()[i - 1] == es[i]);
        assert(props_wf(es.drop_first())) by {
            assert(forall|j: int|
                0 <= j < es.drop_first().len() ==> lower(#[trigger] es.drop_first()[j].0)
                    == es.drop_first()[j].0);
            assert(forall|a: int, b: int|
                0 <= a < b < es.drop_first().len() ==> (#[trigger] es.drop_first()[a]).0 != (
                #[trigger] es.drop_first()[b]).0);
        }
        lemma_map_from_update(
            acc.insert(lower(es.first().0), es.first().1),
            es.drop_first(),
            i - 1,
            v,
        );
        assert(lower(k) == k);
    }
}

/// Appending a fresh entry matches a map insert.
proof fn lemma_map_from_push(
    acc: Map<Seq<u8>, Seq<u8>>,
    es: Seq<(Seq<u8>, Seq<u8>)>,
    k: Seq<u8>,
    v: Seq<u8>,
)
    ensures
        props_map_from(acc, es.push((k, v))) == props_map_from(acc, es).insert(lower(k), v),
    decreases es.len(),
{
    let p = es.push((k, v));
    if es.len() == 0 {
        assert(p.first() == (k, v));
        assert(p.drop_first() =~= Seq::<(Seq<u8>, Seq<u8>)>::empty());
        assert(props_map_from(acc.insert(lower(k), v), p.drop_first()) == acc.insert(lower(k), v));
        assert(props_map_from(acc, p) == acc.insert(lower(k), v));
    } else {
        assert(p.first() == es.first());
        assert(p.drop_first() =~= es.drop_first().push((k, v)));
        let acc1 = acc.insert(lower(es.first().0), es.first().1);
        lemma_map_from_push(acc1, es.drop_first(), k, v);
        assert(props_map_from(acc, p) == props_map_from(acc1, p.drop_first()));
        assert(props_map_from(acc, es) == props_map_from(acc1, es.drop_first()));
    }
}

/// One encoded entry followed by more encoded entries is the encoding of the
/// extended run.
proof fn lemma_props_bytes_push(es: Seq<(Seq<u8>, Seq<u8>)>, e: (Seq<u8>, Seq<u8>))
    ensures
        spec_props_bytes(es.push(e)) == spec_props_bytes(es) + spec_entry_bytes(e),
    decreases es.len(),
{
    if es.len() == 0 {
        assert(es.push(e).first() == e);
        assert(es.push(e).drop_first() =~= Seq::<(Seq<u8>, Seq<u8>)>::empty());
        assert(spec_props_bytes(es.push(e).drop_first()) == Seq::<u8>::empty());
        assert(spec_props_bytes(es.push(e)) =~= spec_props_bytes(es) + spec_entry_bytes(e));
    } else {
        assert(es.push(e).first() == es.first());
        assert(es.push(e).drop_first() =~= es.drop_first().push(e));
        lemma_props_bytes_push(es.drop_first(), e);
        assert(spec_entry_bytes(es.first()) + (spec_props_bytes(es.drop_first())
            + spec_entry_bytes(e)) =~= (spec_entry_bytes(es.first()) + spec_props_bytes(
            es.drop_first(),
        )) + spec_entry_bytes(e));
    }
}

/// The properties round-trip law: encoding a run of entries with permitted
/// names and decoding the result reproduces exactly the folded key→value
/// pairs, keys lowercased.
pub proof fn lemma_props_round_trip(es: Seq<(Seq<u8>, Seq<u8>)>, acc: Map<Seq<u8>, Seq<u8>>)
    requires
        props_encodable(es),
        forall|i: int| 0 <= i < es.len() ==> valid_prop_name((#[trigger] es[i]).0),
    ensures
        spec_props_parse(spec_props_bytes(es), acc) == Ok::<
            Map<Seq<u8>, Seq<u8>>,
            PropertiesParseError,
        >(props_map_from(acc, es)),
    decreases es.len(),
{
    if es.len() > 0 {
        let e = es.first();
        assert(e == es[0]);
        let name = e.0;
        let value = e.1;
        let nlen = name.len() as int;
        let vlen = value.len() as int;
        let eb = spec_entry_bytes(e);
        let rest = spec_props_bytes(es.drop_first());
        let s = spec_props_bytes(es);
        assert(s == eb + rest);
        assert(eb.len() == 5 + nlen + vlen);

        assert(s[0] == nlen as u8);
        assert(1 <= nlen <= 255);
        assert(s.len() - 1 >= nlen);
        assert(s.subrange(1, 1 + nlen) =~= name);

        let lb = spec_u32_be(vlen as u32);
        assert forall|j: int| 0 <= j < 4 implies s[1 + nlen + j] == lb[j] by {
            assert(eb[1 + nlen + j] == lb[j]);
        }
        crate::bytes::lemma_u32_be_round_trip(vlen as u32);
        assert(be32_of(s[1 + nlen], s[2 + nlen], s[3 + nlen], s[4 + nlen]) == vlen as u32);

        assert(s.len() - 5 - nlen >= vlen);
        assert(s.subrange(5 + nlen, 5 + nlen + vlen) =~= value);
        assert(s.subrange(5 + nlen + vlen, s.len() as int) =~= rest);

        assert(forall|i: int|
            0 <= i < es.drop_first().len() ==> 1 <= (#[trigger] es.drop_first()[i]).0.len() <= 255
                && es.drop_first()[i].1.len() <= u32::MAX) by {
            assert(forall|i: int|
                0 <= i < es.drop_first().len() ==> es.drop_first()[i] == es[i + 1]);
        }
        assert(forall|i: int|
            0 <= i < es.drop_first().len() ==> valid_prop_name(
                (#[trigger] es.drop_first()[i]).0,
            )) by {
            assert(forall|i: int|
                0 <= i < es.drop_first().len() ==> es.drop_first()[i] == es[i + 1]);
        }
        lemma_props_round_trip(es.drop_first(), acc.insert(lower(name), value));
    }
}

/// The round-trip law at the level of a `Properties` value: encoding a map
/// whose names the wire format permits and decoding the result reproduces
/// exactly its key→value pairs.
pub proof fn lemma_properties_round_trip(p: Properties)
    requires
        p.wf(),
        props_encodable(p.entries_view()),
        forall|i: int| 0 <= i < p.entries_view().len() ==> valid_prop_name(
            (#[trigger] p.entries_view()[i]).0,
        ),
    ensures
        spec_props_parse(spec_props_bytes(p.entries_view()), Map::empty()) == Ok::<
            Map<Seq<u8>, Seq<u8>>,
            PropertiesParseError,
        >(p@),
{
    lemma_props_round_trip(p.entries_view(), Map::empty());
}

} // verus!
