//! The nodes of the scene graph: transforms, groups, shapes and layers, each
//! with attributes. They are read as records of numbers and strings; what
//! the attributes mean is left to the caller.

use vstd::prelude::*;
use vstd::utf8::{decode_utf8, valid_utf8};

use crate::endian::{i32_le, read_i32, read_u32, u32_le};
use crate::reader::{Error as ReadError, ErrorView as ReadErrorView};
use crate::stream::{moved_on, read_exact, remaining, remaining_advanced, IoError, Read};
use crate::types::Vector;

verus! {

/// `String::from_utf8`: the string that the bytes encode, where they are
/// well-formed UTF-8, and none where they are not.
#[verifier::external_body]
fn string_from_utf8(bytes: Vec<u8>) -> (r: Option<String>)
    ensures
        r is Some <==> valid_utf8(bytes@),
        r matches Some(s) ==> s@ == decode_utf8(bytes@),
{
    String::from_utf8(bytes).ok()
}

/// What reading four bytes as an unsigned integer yields, and what is left.
pub open spec fn take_u32(b: Seq<u8>) -> Result<(u32, Seq<u8>), ReadErrorView> {
    if b.len() < 4 {
        Err(ReadErrorView::Io(IoError::UnexpectedEof))
    } else {
        Ok((u32_le(b), b.skip(4)))
    }
}

/// What reading an optional identifier yields, and what is left: four
/// bytes as a signed integer, which is an identifier unless it is negative.
pub open spec fn take_id(b: Seq<u8>) -> Result<(Option<u32>, Seq<u8>), ReadErrorView> {
    if b.len() < 4 {
        Err(ReadErrorView::Io(IoError::UnexpectedEof))
    } else if i32_le(b) >= 0 {
        Ok((Some(i32_le(b) as u32), b.skip(4)))
    } else {
        Ok((None, b.skip(4)))
    }
}

/// What reading a string yields, and what is left: its length in bytes,
/// then that many bytes of UTF-8.
pub open spec fn take_string(b: Seq<u8>) -> Result<(Seq<char>, Seq<u8>), ReadErrorView> {
    if b.len() < 4 || b.len() - 4 < u32_le(b) {
        Err(ReadErrorView::Io(IoError::UnexpectedEof))
    } else if !valid_utf8(b.subrange(4, 4 + u32_le(b))) {
        Err(ReadErrorView::Utf8)
    } else {
        Ok((decode_utf8(b.subrange(4, 4 + u32_le(b))), b.skip(4 + u32_le(b))))
    }
}

/// What reading `count` pairs of a key and a value yields, and what is
/// left.
pub open spec fn take_pairs(b: Seq<u8>, count: nat) -> Result<
    (Seq<(Seq<char>, Seq<char>)>, Seq<u8>),
    ReadErrorView,
>
    decreases count,
{
    if count == 0 {
        Ok((Seq::empty(), b))
    } else {
        match take_pairs(b, (count - 1) as nat) {
            Err(e) => Err(e),
            Ok((pairs, rest)) => match take_string(rest) {
                Err(e) => Err(e),
                Ok((key, rest)) => match take_string(rest) {
                    Err(e) => Err(e),
                    Ok((value, rest)) => Ok((pairs.push((key, value)), rest)),
                },
            },
        }
    }
}

/// The attributes that pairs of a key and a value amount to: where a key
/// comes more than once, its last value stands.
pub open spec fn map_of(pairs: Seq<(Seq<char>, Seq<char>)>) -> Map<Seq<char>, Seq<char>>
    decreases pairs.len(),
{
    if pairs.len() == 0 {
        Map::empty()
    } else {
        map_of(pairs.drop_last()).insert(pairs.last().0, pairs.last().1)
    }
}

/// What reading attributes yields, and what is left: the number of pairs,
/// then the pairs.
pub open spec fn take_attributes(b: Seq<u8>) -> Result<
    (Map<Seq<char>, Seq<char>>, Seq<u8>),
    ReadErrorView,
> {
    match take_u32(b) {
        Err(e) => Err(e),
        Ok((count, rest)) => match take_pairs(rest, count as nat) {
            Err(e) => Err(e),
            Ok((pairs, rest)) => Ok((map_of(pairs), rest)),
        },
    }
}

/// Reads four bytes as an unsigned integer.
fn read_number<R: Read>(reader: &mut R) -> (r: Result<u32, ReadError>)
    ensures
        match take_u32(remaining(*old(reader))) {
            Ok((n, rest)) => r == Ok::<u32, ReadError>(n) && remaining(*final(reader)) == rest,
            Err(e) => r matches Err(got) && got@ == e,
        },
        moved_on(*old(reader), *final(reader)),
{
    let ghost before = *reader;
    match read_u32(reader) {
        Ok(n) => {
            proof {
                remaining_advanced(before, *reader, 4);
            }
            Ok(n)
        },
        Err(e) => Err(ReadError::Io(e)),
    }
}

/// Reads an optional identifier.
pub fn read_id_opt<R: Read>(reader: &mut R) -> (r: Result<Option<u32>, ReadError>)
    ensures
        match take_id(remaining(*old(reader))) {
            Ok((id, rest)) => r == Ok::<Option<u32>, ReadError>(id) && remaining(*final(reader))
                == rest,
            Err(e) => r matches Err(got) && got@ == e,
        },
        moved_on(*old(reader), *final(reader)),
{
    let ghost before = *reader;
    match read_i32(reader) {
        Ok(n) => {
            proof {
                remaining_advanced(before, *reader, 4);
            }
            if n >= 0 {
                Ok(Some(n as u32))
            } else {
                Ok(None)
            }
        },
        Err(e) => Err(ReadError::Io(e)),
    }
}

/// Reads a string.
fn read_string<R: Read>(reader: &mut R) -> (r: Result<String, ReadError>)
    ensures
        match take_string(remaining(*old(reader))) {
            Ok((s, rest)) => r matches Ok(got) && got@ == s && remaining(*final(reader)) == rest,
            Err(e) => r matches Err(got) && got@ == e,
        },
        moved_on(*old(reader), *final(reader)),
{
    let ghost b = remaining(*reader);
    let len = match read_number(reader) {
        Ok(len) => len,
        Err(e) => {
            return Err(e);
        },
    };
    let ghost before = *reader;
    let buf = match read_exact(reader, len as usize) {
        Ok(buf) => buf,
        Err(e) => {
            return Err(ReadError::Io(e));
        },
    };
    proof {
        remaining_advanced(before, *reader, len as int);
        assert(b.skip(4).skip(len as int) =~= b.skip(4 + len));
        assert(buf@ =~= b.subrange(4, 4 + len));
    }
    match string_from_utf8(buf) {
        Some(s) => Ok(s),
        None => Err(ReadError::Utf8),
    }
}

/// Whether no key comes twice.
pub open spec fn distinct_keys(pairs: Seq<(String, String)>) -> bool {
    forall|i: int, j: int|
        0 <= i < j < pairs.len() ==> (#[trigger] pairs[i]).0@ != (#[trigger] pairs[j]).0@
}

/// The keys and values of pairs of strings.
pub open spec fn pair_views(pairs: Seq<(String, String)>) -> Seq<(Seq<char>, Seq<char>)> {
    Seq::new(pairs.len(), |i: int| (pairs[i].0@, pairs[i].1@))
}

/// Where no key comes twice, the attributes hold each pair.
pub proof fn map_of_distinct(pairs: Seq<(String, String)>, key: Seq<char>)
    requires
        distinct_keys(pairs),
    ensures
        map_of(pair_views(pairs)).contains_key(key) <==> exists|i: int|
            0 <= i < pairs.len() && (#[trigger] pairs[i]).0@ == key,
        forall|i: int|
            0 <= i < pairs.len() && (#[trigger] pairs[i]).0@ == key ==> map_of(
                pair_views(pairs),
            )[key] == pairs[i].1@,
    decreases pairs.len(),
{
    if pairs.len() > 0 {
        let before = pairs.drop_last();
        assert(pair_views(pairs).drop_last() =~= pair_views(before));
        assert(distinct_keys(before)) by {
            assert forall|i: int, j: int| 0 <= i < j < before.len() implies (
            #[trigger] before[i]).0@ != (#[trigger] before[j]).0@ by {
                assert(before[i] == pairs[i]);
                assert(before[j] == pairs[j]);
            }
        }
        map_of_distinct(before, key);
        if pairs.last().0@ == key {
            assert forall|i: int| 0 <= i < pairs.len() && (#[trigger] pairs[i]).0@ == key implies i
                == pairs.len() - 1 by {
                if i < pairs.len() - 1 {
                    assert(pairs[i].0@ != pairs[pairs.len() - 1].0@);
                }
            }
        } else {
            assert forall|i: int|
                0 <= i < pairs.len() && (#[trigger] pairs[i]).0@ == key implies before[i]
                == pairs[i] && i < before.len() by {}
            if exists|i: int| 0 <= i < before.len() && (#[trigger] before[i]).0@ == key {
                let i = choose|i: int| 0 <= i < before.len() && (#[trigger] before[i]).0@ == key;
                assert(pairs[i] == before[i]);
            }
        }
    }
}

/// Where the value of one key is replaced, the attributes hold the new
/// value for that key and are as they were for the others.
pub proof fn replaced_value(before: Seq<(String, String)>, after: Seq<(String, String)>, at: int)
    requires
        distinct_keys(before),
        distinct_keys(after),
        0 <= at < before.len(),
        after.len() == before.len(),
        after[at].0@ == before[at].0@,
        forall|j: int| 0 <= j < before.len() && j != at ==> after[j] == before[j],
    ensures
        map_of(pair_views(after)) == map_of(pair_views(before)).insert(
            after[at].0@,
            after[at].1@,
        ),
{
    let new = map_of(pair_views(after));
    let old = map_of(pair_views(before)).insert(after[at].0@, after[at].1@);
    assert forall|k: Seq<char>| #[trigger] new.dom().contains(k) == old.dom().contains(k) by {
        map_of_distinct(after, k);
        map_of_distinct(before, k);
        if k != after[at].0@ {
            if exists|j: int| 0 <= j < after.len() && (#[trigger] after[j]).0@ == k {
                let j = choose|j: int| 0 <= j < after.len() && (#[trigger] after[j]).0@ == k;
                assert(before[j] == after[j]);
            }
            if exists|j: int| 0 <= j < before.len() && (#[trigger] before[j]).0@ == k {
                let j = choose|j: int| 0 <= j < before.len() && (#[trigger] before[j]).0@ == k;
                assert(before[j] == after[j]);
            }
        } else {
            assert(after[at].0@ == k);
        }
    }
    assert forall|k: Seq<char>| new.dom().contains(k) implies #[trigger] new[k] == old[k] by {
        map_of_distinct(after, k);
        map_of_distinct(before, k);
        let j = choose|j: int| 0 <= j < after.len() && (#[trigger] after[j]).0@ == k;
        if k != after[at].0@ {
            assert(before[j] == after[j]);
        } else {
            assert(after[at].0@ == k);
        }
    }
    assert(new =~= old);
}

/// Puts a pair into a list without double keys: the value takes the place
/// of an earlier one of the same key.
#[verifier::loop_isolation(false)]
fn insert_pair(pairs: &mut Vec<(String, String)>, key: String, value: String)
    requires
        distinct_keys(old(pairs)@),
    ensures
        distinct_keys(final(pairs)@),
        map_of(pair_views(final(pairs)@)) == map_of(pair_views(old(pairs)@)).insert(
            key@,
            value@,
        ),
{
    let ghost before = pairs@;
    let mut i: usize = 0;
    while i < pairs.len()
        invariant
            i <= pairs@.len(),
            pairs@ == before,
            forall|j: int| 0 <= j < i ==> (#[trigger] pairs@[j]).0@ != key@,
        decreases pairs@.len() - i,
    {
        if pairs[i].0 == key {
            pairs.set(i, (key, value));
            proof {
                let after = pairs@;
                assert(distinct_keys(after)) by {
                    assert forall|a: int, b: int| 0 <= a < b < after.len() implies (
                    #[trigger] after[a]).0@ != (#[trigger] after[b]).0@ by {
                        assert(before[a].0@ != before[b].0@);
                    }
                }
                replaced_value(before, after, i as int);
            }
            return ;
        }
        i = i + 1;
    }
    let ghost k = key@;
    let ghost v = value@;
    pairs.push((key, value));
    proof {
        assert(pair_views(pairs@).drop_last() =~= pair_views(before));
        assert(distinct_keys(pairs@)) by {
            assert forall|a: int, b: int| 0 <= a < b < pairs@.len() implies (
            #[trigger] pairs@[a]).0@ != (#[trigger] pairs@[b]).0@ by {
                if b < before.len() {
                    assert(before[a].0@ != before[b].0@);
                } else {
                    assert(before[a].0@ != k);
                }
            }
        }
    }
}

/// The attributes of a node: values by key.
#[derive(Debug)]
pub struct Attributes {
    inner: Vec<(String, String)>,
}

impl View for Attributes {
    type V = Map<Seq<char>, Seq<char>>;

    closed spec fn view(&self) -> Map<Seq<char>, Seq<char>> {
        map_of(pair_views(self.inner@))
    }
}

impl Default for Attributes {
    /// No attributes.
    fn default() -> (r: Attributes)
        ensures
            r@ == Map::<Seq<char>, Seq<char>>::empty(),
    {
        let r = Attributes { inner: Vec::new() };
        assert(pair_views(r.inner@) =~= Seq::empty());
        r
    }
}

impl Attributes {
    #[verifier::type_invariant]
    spec fn distinct(self) -> bool {
        distinct_keys(self.inner@)
    }

    /// The entries: each key once, with its value.
    pub closed spec fn entries(&self) -> Seq<(Seq<char>, Seq<char>)> {
        pair_views(self.inner@)
    }

    /// Reads attributes: the number of pairs, then for each pair the key and
    /// the value as strings. Where a key comes more than once, its last
    /// value stands.
    pub fn read<R: Read>(reader: &mut R) -> (r: Result<Attributes, ReadError>)
        ensures
            match take_attributes(remaining(*old(reader))) {
                Ok((attributes, rest)) => r matches Ok(got) && got@ == attributes && remaining(
                    *final(reader),
                ) == rest,
                Err(e) => r matches Err(got) && got@ == e,
            },
            moved_on(*old(reader), *final(reader)),
    {
        let ghost b = remaining(*reader);
        let num_items = match read_number(reader) {
            Ok(n) => n,
            Err(e) => {
                return Err(e);
            },
        };
        let ghost body = remaining(*reader);
        let mut inner: Vec<(String, String)> = Vec::new();
        let mut i: u32 = 0;
        assert(pair_views(inner@) =~= Seq::empty());
        while i < num_items
            invariant
                i <= num_items,
                distinct_keys(inner@),
                take_pairs(body, i as nat) matches Ok((pairs, rest)) && map_of(pairs) == map_of(
                    pair_views(inner@),
                ) && rest == remaining(*reader),
                take_u32(b) == Ok::<(u32, Seq<u8>), ReadErrorView>((num_items, body)),
                b == remaining(*old(reader)),
                moved_on(*old(reader), *reader),
            decreases num_items - i,
        {
            let key = match read_string(reader) {
                Ok(key) => key,
                Err(e) => {
                    proof {
                        take_pairs_failed(body, (i + 1) as nat, num_items as nat);
                    }
                    return Err(e);
                },
            };
            let value = match read_string(reader) {
                Ok(value) => value,
                Err(e) => {
                    proof {
                        take_pairs_failed(body, (i + 1) as nat, num_items as nat);
                    }
                    return Err(e);
                },
            };
            proof {
                let pairs = take_pairs(body, i as nat)->Ok_0.0;
                assert(pairs.push((key@, value@)).drop_last() =~= pairs);
            }
            insert_pair(&mut inner, key, value);
            i = i + 1;
        }
        Ok(Attributes { inner })
    }

    /// The value of `key`, if there is one.
    #[verifier::loop_isolation(false)]
    pub fn get(&self, key: &str) -> (r: Option<&str>)
        ensures
            match r {
                Some(value) => self@.contains_key(key@) && self@[key@] == value@,
                None => !self@.contains_key(key@),
            },
    {
        proof {
            use_type_invariant(self);
            map_of_distinct(self.inner@, key@);
        }
        let wanted = key.to_owned();
        let mut i: usize = 0;
        while i < self.inner.len()
            invariant
                i <= self.inner@.len(),
                forall|j: int| 0 <= j < i ==> (#[trigger] self.inner@[j]).0@ != key@,
            decreases self.inner@.len() - i,
        {
            if self.inner[i].0 == wanted {
                return Some(self.inner[i].1.as_str());
            }
            i = i + 1;
        }
        None
    }

    /// Walks the entries: each key once, with its value.
    pub fn iter(&self) -> (it: AttributesIter<'_>)
        ensures
            it.entries() == self.entries(),
            it.index() == 0,
            forall|i: int, j: int|
                0 <= i < j < self.entries().len() ==> (#[trigger] self.entries()[i]).0 != (
                #[trigger] self.entries()[j]).0,
            forall|i: int|
                0 <= i < self.entries().len() ==> self@.contains_key(
                    (#[trigger] self.entries()[i]).0,
                ) && self@[self.entries()[i].0] == self.entries()[i].1,
            forall|key: Seq<char>|
                self@.contains_key(key) ==> exists|i: int|
                    0 <= i < self.entries().len() && (#[trigger] self.entries()[i]).0 == key,
    {
        proof {
            use_type_invariant(self);
            let pairs = self.inner@;
            assert forall|i: int, j: int| 0 <= i < j < self.entries().len() implies (
            #[trigger] self.entries()[i]).0 != (#[trigger] self.entries()[j]).0 by {
                assert(pairs[i].0@ != pairs[j].0@);
            }
            assert forall|i: int| 0 <= i < self.entries().len() implies self@.contains_key(
                (#[trigger] self.entries()[i]).0,
            ) && self@[self.entries()[i].0] == self.entries()[i].1 by {
                map_of_distinct(pairs, pairs[i].0@);
            }
            assert forall|key: Seq<char>| self@.contains_key(key) implies exists|i: int|
                0 <= i < self.entries().len() && (#[trigger] self.entries()[i]).0 == key by {
                map_of_distinct(pairs, key);
                let i = choose|i: int| 0 <= i < pairs.len() && (#[trigger] pairs[i]).0@ == key;
                assert(self.entries()[i].0 == key);
            }
        }
        AttributesIter { inner: &self.inner, index: 0 }
    }
}

/// Once a pair has failed, the pairs behind it are not read.
pub proof fn take_pairs_failed(b: Seq<u8>, failed: nat, count: nat)
    requires
        failed <= count,
        take_pairs(b, failed) is Err,
    ensures
        take_pairs(b, count) == take_pairs(b, failed),
    decreases count,
{
    if failed < count {
        take_pairs_failed(b, failed, (count - 1) as nat);
    }
}

/// A walk over the entries of attributes.
#[derive(Debug)]
pub struct AttributesIter<'a> {
    inner: &'a Vec<(String, String)>,
    index: usize,
}

impl<'a> AttributesIter<'a> {
    /// The entries that are walked.
    pub closed spec fn entries(&self) -> Seq<(Seq<char>, Seq<char>)> {
        pair_views(self.inner@)
    }

    /// The index of the entry that comes next.
    pub closed spec fn index(&self) -> nat {
        self.index as nat
    }

    /// The next entry: its key and its value.
    pub fn next(&mut self) -> (r: Option<(&'a str, &'a str)>)
        ensures
            final(self).entries() == old(self).entries(),
            match r {
                Some((key, value)) => old(self).index() < old(self).entries().len() && (
                key@,
                value@,
                ) == old(self).entries()[old(self).index() as int] && final(self).index() == old(
                    self,
                ).index() + 1,
                None => old(self).index() >= old(self).entries().len() && final(self).index()
                    == old(self).index(),
            },
    {
        if self.index < self.inner.len() {
            let i = self.index;
            self.index = i + 1;
            Some((self.inner[i].0.as_str(), self.inner[i].1.as_str()))
        } else {
            None
        }
    }
}

/// What reading `count` unsigned integers yields, and what is left.
pub open spec fn take_numbers(b: Seq<u8>, count: nat) -> Result<(Seq<u32>, Seq<u8>), ReadErrorView>
    decreases count,
{
    if count == 0 {
        Ok((Seq::empty(), b))
    } else {
        match take_numbers(b, (count - 1) as nat) {
            Err(e) => Err(e),
            Ok((numbers, rest)) => match take_u32(rest) {
                Err(e) => Err(e),
                Ok((n, rest)) => Ok((numbers.push(n), rest)),
            },
        }
    }
}

/// What reading `count` sets of attributes yields, and what is left.
pub open spec fn take_frames(b: Seq<u8>, count: nat) -> Result<
    (Seq<Map<Seq<char>, Seq<char>>>, Seq<u8>),
    ReadErrorView,
>
    decreases count,
{
    if count == 0 {
        Ok((Seq::empty(), b))
    } else {
        match take_frames(b, (count - 1) as nat) {
            Err(e) => Err(e),
            Ok((frames, rest)) => match take_attributes(rest) {
                Err(e) => Err(e),
                Ok((frame, rest)) => Ok((frames.push(frame), rest)),
            },
        }
    }
}

/// Once a number has failed, the numbers behind it are not read.
pub proof fn take_numbers_failed(b: Seq<u8>, failed: nat, count: nat)
    requires
        failed <= count,
        take_numbers(b, failed) is Err,
    ensures
        take_numbers(b, count) == take_numbers(b, failed),
    decreases count,
{
    if failed < count {
        take_numbers_failed(b, failed, (count - 1) as nat);
    }
}

/// Once a frame has failed, the frames behind it are not read.
pub proof fn take_frames_failed(b: Seq<u8>, failed: nat, count: nat)
    requires
        failed <= count,
        take_frames(b, failed) is Err,
    ensures
        take_frames(b, count) == take_frames(b, failed),
    decreases count,
{
    if failed < count {
        take_frames_failed(b, failed, (count - 1) as nat);
    }
}

/// The attributes of each frame, in order.
pub open spec fn frame_views(frames: Seq<Attributes>) -> Seq<Map<Seq<char>, Seq<char>>> {
    Seq::new(frames.len(), |i: int| frames[i]@)
}

/// What a transform node holds.
pub struct TransformView {
    pub node_id: u32,
    pub attributes: Map<Seq<char>, Seq<char>>,
    pub child_node_id: u32,
    pub reserved_id: Option<u32>,
    pub layer_id: Option<u32>,
    pub frames: Seq<Map<Seq<char>, Seq<char>>>,
}

/// A transform node: it places its child node, frame by frame.
#[derive(Debug)]
pub struct Transform {
    pub node_id: u32,
    pub attributes: Attributes,
    pub child_node_id: u32,
    pub reserved_id: Option<u32>,
    pub layer_id: Option<u32>,
    pub frames: Vec<Attributes>,
}

impl View for Transform {
    type V = TransformView;

    open spec fn view(&self) -> TransformView {
        TransformView {
            node_id: self.node_id,
            attributes: self.attributes@,
            child_node_id: self.child_node_id,
            reserved_id: self.reserved_id,
            layer_id: self.layer_id,
            frames: frame_views(self.frames@),
        }
    }
}

/// What reading a transform node yields, and what is left: the node's
/// identifier, its attributes, the identifier of its child, two optional
/// identifiers, and the frames with their number before them.
pub open spec fn take_transform(b: Seq<u8>) -> Result<(TransformView, Seq<u8>), ReadErrorView> {
    match take_u32(b) {
        Err(e) => Err(e),
        Ok((node_id, rest)) => match take_attributes(rest) {
            Err(e) => Err(e),
            Ok((attributes, rest)) => match take_u32(rest) {
                Err(e) => Err(e),
                Ok((child_node_id, rest)) => match take_id(rest) {
                    Err(e) => Err(e),
                    Ok((reserved_id, rest)) => match take_id(rest) {
                        Err(e) => Err(e),
                        Ok((layer_id, rest)) => match take_u32(rest) {
                            Err(e) => Err(e),
                            Ok((num_frames, rest)) => match take_frames(rest, num_frames as nat) {
                                Err(e) => Err(e),
                                Ok((frames, rest)) => Ok(
                                    (
                                        TransformView {
                                            node_id,
                                            attributes,
                                            child_node_id,
                                            reserved_id,
                                            layer_id,
                                            frames,
                                        },
                                        rest,
                                    ),
                                ),
                            },
                        },
                    },
                },
            },
        },
    }
}

/// The parts of `s` between its runs of white space, as
/// `str::split_whitespace` yields them.
pub uninterp spec fn whitespace_split(s: Seq<char>) -> Seq<Seq<char>>;

/// The number that `s` is the decimal form of, as `str::parse::<i32>` reads
/// it, if it is one.
pub uninterp spec fn parsed_i32(s: Seq<char>) -> Option<i32>;

/// `str::split_whitespace`: the parts of `s` between its runs of white
/// space, in order.
#[verifier::external_body]
fn split_whitespace(s: &str) -> (parts: Vec<String>)
    ensures
        parts@.len() == whitespace_split(s@).len(),
        forall|i: int| 0 <= i < parts@.len() ==> (#[trigger] parts@[i])@ == whitespace_split(s@)[i],
{
    s.split_whitespace().map(String::from).collect()
}

/// `str::parse::<i32>`: the number that `s` is the decimal form of, and
/// none where it is not one.
#[verifier::external_body]
fn parse_i32(s: &str) -> (r: Option<i32>)
    ensures
        r == parsed_i32(s@),
{
    s.parse::<i32>().ok()
}

/// The vector of three numbers: there is none where there are more or fewer
/// than three parts, or where one of them is no number.
pub open spec fn vector_from(parts: Seq<Option<i32>>) -> Option<Vector<i32>> {
    if parts.len() == 3 && parts[0] is Some && parts[1] is Some && parts[2] is Some {
        Some(Vector { x: parts[0]->Some_0, y: parts[1]->Some_0, z: parts[2]->Some_0 })
    } else {
        None
    }
}

/// The vector of three numbers.
pub fn vector_of_parts(parts: &Vec<Option<i32>>) -> (r: Option<Vector<i32>>)
    ensures
        r == vector_from(parts@),
{
    if parts.len() != 3 {
        return None;
    }
    match (parts[0], parts[1], parts[2]) {
        (Some(x), Some(y), Some(z)) => Some(Vector { x, y, z }),
        _ => None,
    }
}

/// The translation that a string of three numbers stands for.
pub open spec fn translation_of(value: Seq<char>) -> Option<Vector<i32>> {
    vector_from(
        Seq::new(
            whitespace_split(value).len(),
            |i: int| parsed_i32(whitespace_split(value)[i]),
        ),
    )
}

impl Transform {
    /// Reads a transform node.
    #[verifier::loop_isolation(false)]
    pub fn read<R: Read>(reader: &mut R) -> (r: Result<Transform, ReadError>)
        ensures
            match take_transform(remaining(*old(reader))) {
                Ok((transform, rest)) => r matches Ok(got) && got@ == transform && remaining(
                    *final(reader),
                ) == rest,
                Err(e) => r matches Err(got) && got@ == e,
            },
            moved_on(*old(reader), *final(reader)),
    {
        let node_id = match read_number(reader) {
            Ok(n) => n,
            Err(e) => {
                return Err(e);
            },
        };
        let attributes = match Attributes::read(reader) {
            Ok(a) => a,
            Err(e) => {
                return Err(e);
            },
        };
        let child_node_id = match read_number(reader) {
            Ok(n) => n,
            Err(e) => {
                return Err(e);
            },
        };
        let reserved_id = match read_id_opt(reader) {
            Ok(n) => n,
            Err(e) => {
                return Err(e);
            },
        };
        let layer_id = match read_id_opt(reader) {
            Ok(n) => n,
            Err(e) => {
                return Err(e);
            },
        };
        let num_frames = match read_number(reader) {
            Ok(n) => n,
            Err(e) => {
                return Err(e);
            },
        };
        let ghost body = remaining(*reader);
        let mut frames: Vec<Attributes> = Vec::new();
        let mut i: u32 = 0;
        assert(frame_views(frames@) =~= Seq::empty());
        while i < num_frames
            invariant
                i <= num_frames,
                take_frames(body, i as nat) == Ok::<
                    (Seq<Map<Seq<char>, Seq<char>>>, Seq<u8>),
                    ReadErrorView,
                >((frame_views(frames@), remaining(*reader))),
                moved_on(*old(reader), *reader),
            decreases num_frames - i,
        {
            let ghost before = frame_views(frames@);
            let frame = match Attributes::read(reader) {
                Ok(frame) => frame,
                Err(e) => {
                    proof {
                        take_frames_failed(body, (i + 1) as nat, num_frames as nat);
                    }
                    return Err(e);
                },
            };
            frames.push(frame);
            assert(frame_views(frames@) =~= before.push(frame@));
            i = i + 1;
        }
        Ok(Transform { node_id, attributes, child_node_id, reserved_id, layer_id, frames })
    }

    /// The translation of a frame: the three numbers of its attribute `_t`.
    pub fn get_transform(&self, frame: usize) -> (r: Option<Vector<i32>>)
        ensures
            r == if frame < self.frames@.len() && self.frames@[frame as int]@.contains_key("_t"@) {
                translation_of(self.frames@[frame as int]@["_t"@])
            } else {
                None
            },
    {
        if frame >= self.frames.len() {
            return None;
        }
        let value = match self.frames[frame].get("_t") {
            Some(value) => value,
            None => {
                return None;
            },
        };
        let parts = split_whitespace(value);
        let mut numbers: Vec<Option<i32>> = Vec::new();
        let mut i: usize = 0;
        while i < parts.len()
            invariant
                i <= parts@.len(),
                numbers@.len() == i,
                parts@.len() == whitespace_split(value@).len(),
                forall|k: int|
                    0 <= k < parts@.len() ==> (#[trigger] parts@[k])@ == whitespace_split(
                        value@,
                    )[k],
                forall|k: int|
                    0 <= k < i ==> #[trigger] numbers@[k] == parsed_i32(
                        whitespace_split(value@)[k],
                    ),
            decreases parts@.len() - i,
        {
            numbers.push(parse_i32(parts[i].as_str()));
            i = i + 1;
        }
        assert(numbers@ =~= Seq::new(
            whitespace_split(value@).len(),
            |i: int| parsed_i32(whitespace_split(value@)[i]),
        ));
        vector_of_parts(&numbers)
    }
}

/// What a group node holds.
pub struct GroupView {
    pub node_id: u32,
    pub attributes: Map<Seq<char>, Seq<char>>,
    pub children: Seq<u32>,
}

/// A group node: it holds other nodes.
#[derive(Debug)]
pub struct Group {
    pub node_id: u32,
    pub attributes: Attributes,
    pub children: Vec<u32>,
}

impl View for Group {
    type V = GroupView;

    open spec fn view(&self) -> GroupView {
        GroupView {
            node_id: self.node_id,
            attributes: self.attributes@,
            children: self.children@,
        }
    }
}

/// What reading a group node yields, and what is left: the node's
/// identifier, its attributes, and the identifiers of its children with
/// their number before them.
pub open spec fn take_group(b: Seq<u8>) -> Result<(GroupView, Seq<u8>), ReadErrorView> {
    match take_u32(b) {
        Err(e) => Err(e),
        Ok((node_id, rest)) => match take_attributes(rest) {
            Err(e) => Err(e),
            Ok((attributes, rest)) => match take_u32(rest) {
                Err(e) => Err(e),
                Ok((num_children, rest)) => match take_numbers(rest, num_children as nat) {
                    Err(e) => Err(e),
                    Ok((children, rest)) => Ok((GroupView { node_id, attributes, children }, rest)),
                },
            },
        },
    }
}

impl Group {
    /// Reads a group node.
    #[verifier::loop_isolation(false)]
    pub fn read<R: Read>(reader: &mut R) -> (r: Result<Group, ReadError>)
        ensures
            match take_group(remaining(*old(reader))) {
                Ok((group, rest)) => r matches Ok(got) && got@ == group && remaining(
                    *final(reader),
                ) == rest,
                Err(e) => r matches Err(got) && got@ == e,
            },
            moved_on(*old(reader), *final(reader)),
    {
        let node_id = match read_number(reader) {
            Ok(n) => n,
            Err(e) => {
                return Err(e);
            },
        };
        let attributes = match Attributes::read(reader) {
            Ok(a) => a,
            Err(e) => {
                return Err(e);
            },
        };
        let num_children = match read_number(reader) {
            Ok(n) => n,
            Err(e) => {
                return Err(e);
            },
        };
        let ghost body = remaining(*reader);
        let mut children: Vec<u32> = Vec::new();
        let mut i: u32 = 0;
        while i < num_children
            invariant
                i <= num_children,
                take_numbers(body, i as nat) == Ok::<(Seq<u32>, Seq<u8>), ReadErrorView>(
                    (children@, remaining(*reader)),
                ),
                moved_on(*old(reader), *reader),
            decreases num_children - i,
        {
            let child = match read_number(reader) {
                Ok(child) => child,
                Err(e) => {
                    proof {
                        take_numbers_failed(body, (i + 1) as nat, num_children as nat);
                    }
                    return Err(e);
                },
            };
            children.push(child);
            i = i + 1;
        }
        Ok(Group { node_id, attributes, children })
    }
}

/// What a shape node holds.
pub struct ShapeView {
    pub node_id: u32,
    pub attributes: Map<Seq<char>, Seq<char>>,
}

/// A shape node.
#[derive(Debug)]
pub struct Shape {
    pub node_id: u32,
    pub attributes: Attributes,
}

impl View for Shape {
    type V = ShapeView;

    open spec fn view(&self) -> ShapeView {
        ShapeView { node_id: self.node_id, attributes: self.attributes@ }
    }
}

/// What reading a shape node yields, and what is left: the node's
/// identifier and its attributes.
pub open spec fn take_shape(b: Seq<u8>) -> Result<(ShapeView, Seq<u8>), ReadErrorView> {
    match take_u32(b) {
        Err(e) => Err(e),
        Ok((node_id, rest)) => match take_attributes(rest) {
            Err(e) => Err(e),
            Ok((attributes, rest)) => Ok((ShapeView { node_id, attributes }, rest)),
        },
    }
}

impl Shape {
    /// Reads a shape node.
    pub fn read<R: Read>(reader: &mut R) -> (r: Result<Shape, ReadError>)
        ensures
            match take_shape(remaining(*old(reader))) {
                Ok((shape, rest)) => r matches Ok(got) && got@ == shape && remaining(
                    *final(reader),
                ) == rest,
                Err(e) => r matches Err(got) && got@ == e,
            },
            moved_on(*old(reader), *final(reader)),
    {
        let node_id = match read_number(reader) {
            Ok(n) => n,
            Err(e) => {
                return Err(e);
            },
        };
        let attributes = match Attributes::read(reader) {
            Ok(a) => a,
            Err(e) => {
                return Err(e);
            },
        };
        Ok(Shape { node_id, attributes })
    }
}

/// What a layer node holds.
pub struct LayerView {
    pub node_id: u32,
    pub attributes: Map<Seq<char>, Seq<char>>,
    pub reserved_id: Option<u32>,
}

/// A layer node.
#[derive(Debug)]
pub struct Layer {
    pub node_id: u32,
    pub attributes: Attributes,
    pub reserved_id: Option<u32>,
}

impl View for Layer {
    type V = LayerView;

    open spec fn view(&self) -> LayerView {
        LayerView {
            node_id: self.node_id,
            attributes: self.attributes@,
            reserved_id: self.reserved_id,
        }
    }
}

/// What reading a layer node yields, and what is left: the node's
/// identifier, its attributes, and an optional identifier.
pub open spec fn take_layer(b: Seq<u8>) -> Result<(LayerView, Seq<u8>), ReadErrorView> {
    match take_u32(b) {
        Err(e) => Err(e),
        Ok((node_id, rest)) => match take_attributes(rest) {
            Err(e) => Err(e),
            Ok((attributes, rest)) => match take_id(rest) {
                Err(e) => Err(e),
                Ok((reserved_id, rest)) => Ok(
                    (LayerView { node_id, attributes, reserved_id }, rest),
                ),
            },
        },
    }
}

impl Layer {
    /// Reads a layer node.
    pub fn read<R: Read>(reader: &mut R) -> (r: Result<Layer, ReadError>)
        ensures
            match take_layer(remaining(*old(reader))) {
                Ok((layer, rest)) => r matches Ok(got) && got@ == layer && remaining(
                    *final(reader),
                ) == rest,
                Err(e) => r matches Err(got) && got@ == e,
            },
            moved_on(*old(reader), *final(reader)),
    {
        let node_id = match read_number(reader) {
            Ok(n) => n,
            Err(e) => {
                return Err(e);
            },
        };
        let attributes = match Attributes::read(reader) {
            Ok(a) => a,
            Err(e) => {
                return Err(e);
            },
        };
        let reserved_id = match read_id_opt(reader) {
            Ok(n) => n,
            Err(e) => {
                return Err(e);
            },
        };
        Ok(Layer { node_id, attributes, reserved_id })
    }
}

} // verus!
