//! The members of an object in JSON text, their values unread. A value that nobody
//! asks for is only skipped, and a key that stands twice is seen twice.

use vstd::prelude::*;
use vstd::slice::slice_subrange;

use crate::text::same_text;

verus! {

/// The text at the start of bytes of JSON text, where there is one, and the number
/// of bytes up to its end.
pub uninterp spec fn key_at(b: Seq<u8>) -> Option<(Seq<char>, nat)>;

/// The number of bytes up to the end of the value at the start of bytes of JSON
/// text, where there is one.
pub uninterp spec fn value_length(b: Seq<u8>) -> Option<nat>;

/// `next` and `byte_offset` of a `serde_json::StreamDeserializer` of `String` over
/// the bytes: the first text, where the bytes start with one, and how far it goes, a
/// function of the bytes alone. It ends within the bytes.
#[verifier::external_body]
fn read_key(b: &[u8]) -> (r: Option<(String, usize)>)
    ensures
        match r {
            Some((k, n)) => key_at(b@) == Some((k@, n as nat)) && n <= b@.len(),
            None => key_at(b@) is None,
        },
{
    let mut texts = serde_json::Deserializer::from_slice(b).into_iter::<String>();
    match texts.next() {
        Some(Ok(k)) => Some((k, texts.byte_offset())),
        _ => None,
    }
}

/// `next` and `byte_offset` of a `serde_json::StreamDeserializer` of
/// `serde::de::IgnoredAny` over the bytes: how far the first value goes, where the
/// bytes start with one, a function of the bytes alone. It ends within the bytes.
#[verifier::external_body]
fn skip_value(b: &[u8]) -> (r: Option<usize>)
    ensures
        match r {
            Some(n) => value_length(b@) == Some(n as nat) && n <= b@.len(),
            None => value_length(b@) is None,
        },
{
    let mut values = serde_json::Deserializer::from_slice(b).into_iter::<serde::de::IgnoredAny>();
    match values.next() {
        Some(Ok(_)) => Some(values.byte_offset()),
        _ => None,
    }
}

/// The white space of JSON text.
pub open spec fn is_space(c: u8) -> bool {
    c == 0x20 || c == 0x0a || c == 0x09 || c == 0x0d
}

/// The bytes without the white space that they start with.
pub open spec fn unspaced(b: Seq<u8>) -> Seq<u8>
    decreases b.len(),
{
    if b.len() > 0 && is_space(b[0]) {
        unspaced(b.skip(1))
    } else {
        b
    }
}

/// Whether the first byte after white space is this one.
pub open spec fn starts(b: Seq<u8>, c: u8) -> bool {
    unspaced(b).len() > 0 && unspaced(b)[0] == c
}

/// What follows the first byte after white space.
pub open spec fn beyond(b: Seq<u8>) -> Seq<u8> {
    unspaced(b).skip(1)
}

proof fn lemma_unspaced(b: Seq<u8>)
    ensures
        unspaced(b).len() <= b.len(),
    decreases b.len(),
{
    if b.len() > 0 && is_space(b[0]) {
        lemma_unspaced(b.skip(1));
    }
}

/// The members from a key on, up to the end of the object and of the bytes.
pub open spec fn members_from(b: Seq<u8>) -> Option<Seq<(Seq<char>, Seq<u8>)>>
    decreases b.len(),
    via members_from_shrinks
{
    match key_at(b) {
        Some((key, n)) => if n <= b.len() && starts(b.skip(n as int), 0x3a) {
            let v = beyond(b.skip(n as int));
            match value_length(v) {
                Some(m) => if m <= v.len() {
                    let member = (key, v.take(m as int));
                    let rest = v.skip(m as int);
                    if starts(rest, 0x2c) {
                        match members_from(beyond(rest)) {
                            Some(more) => Some(seq![member] + more),
                            None => None,
                        }
                    } else if starts(rest, 0x7d) && unspaced(beyond(rest)).len() == 0 {
                        Some(seq![member])
                    } else {
                        None
                    }
                } else {
                    None
                },
                None => None,
            }
        } else {
            None
        },
        None => None,
    }
}

#[via_fn]
proof fn members_from_shrinks(b: Seq<u8>) {
    if let Some((key, n)) = key_at(b) {
        if n <= b.len() && starts(b.skip(n as int), 0x3a) {
            lemma_unspaced(b.skip(n as int));
            let v = beyond(b.skip(n as int));
            if let Some(m) = value_length(v) {
                if m <= v.len() {
                    lemma_unspaced(v.skip(m as int));
                }
            }
        }
    }
}

/// The members of the object that the bytes write, each key with the bytes of its
/// value, where they write one object and nothing else.
pub open spec fn object_members(b: Seq<u8>) -> Option<Seq<(Seq<char>, Seq<u8>)>> {
    if starts(b, 0x7b) {
        let inner = beyond(b);
        if starts(inner, 0x7d) {
            if unspaced(beyond(inner)).len() == 0 {
                Some(seq![])
            } else {
                None
            }
        } else {
            members_from(inner)
        }
    } else {
        None
    }
}

/// The bytes of the values that stand under a key, in order.
pub open spec fn under(members: Seq<(Seq<char>, Seq<u8>)>, key: Seq<char>) -> Seq<Seq<u8>>
    decreases members.len(),
{
    if members.len() == 0 {
        seq![]
    } else if members.last().0 == key {
        under(members.drop_last(), key).push(members.last().1)
    } else {
        under(members.drop_last(), key)
    }
}

/// The bytes of the value under a key that stands exactly once.
pub open spec fn only(members: Seq<(Seq<char>, Seq<u8>)>, key: Seq<char>) -> Option<Seq<u8>> {
    if under(members, key).len() == 1 {
        Some(under(members, key)[0])
    } else {
        None
    }
}

/// A member whose value is unread.
#[derive(Debug)]
pub struct RawMember {
    pub key: String,
    pub raw: Vec<u8>,
}

impl View for RawMember {
    type V = (Seq<char>, Seq<u8>);

    open spec fn view(&self) -> (Seq<char>, Seq<u8>) {
        (self.key@, self.raw@)
    }
}

/// The models of a list of members.
pub open spec fn raw_models(members: Seq<RawMember>) -> Seq<(Seq<char>, Seq<u8>)> {
    members.map_values(|m: RawMember| m@)
}

/// A copy of part of the bytes.
fn copy_range(b: &[u8], from: usize, to: usize) -> (r: Vec<u8>)
    requires
        from <= to <= b@.len(),
    ensures
        r@ == b@.subrange(from as int, to as int),
{
    let mut out: Vec<u8> = Vec::new();
    let mut i: usize = from;
    while i < to
        invariant
            from <= i <= to,
            to <= b@.len(),
            out@ == b@.subrange(from as int, i as int),
        decreases to - i,
    {
        out.push(b[i]);
        assert(b@.subrange(from as int, i + 1) =~= b@.subrange(from as int, i as int).push(
            b@[i as int],
        ));
        i = i + 1;
    }
    out
}

/// The first place from `from` on that is no white space.
fn past_space(b: &[u8], from: usize) -> (r: usize)
    requires
        from <= b@.len(),
    ensures
        from <= r <= b@.len(),
        unspaced(b@.skip(from as int)) == b@.skip(r as int),
{
    let n: usize = b.len();
    let mut i: usize = from;
    while i < n && (b[i] == 0x20 || b[i] == 0x0a || b[i] == 0x09 || b[i] == 0x0d)
        invariant
            n == b@.len(),
            from <= i <= n,
            unspaced(b@.skip(from as int)) == unspaced(b@.skip(i as int)),
        decreases n - i,
    {
        assert(b@.skip(i as int).skip(1) =~= b@.skip(i + 1));
        i = i + 1;
    }
    i
}

/// The place after the byte, where that is the first one from `from` on that is no
/// white space.
fn eat(b: &[u8], from: usize, c: u8) -> (r: Option<usize>)
    requires
        from <= b@.len(),
    ensures
        match r {
            Some(i) => from < i <= b@.len() && starts(b@.skip(from as int), c) && beyond(
                b@.skip(from as int),
            ) == b@.skip(i as int),
            None => !starts(b@.skip(from as int), c),
        },
{
    let i = past_space(b, from);
    if i < b.len() && b[i] == c {
        assert(b@.skip(i as int)[0] == c);
        assert(b@.skip(i as int).skip(1) =~= b@.skip(i + 1));
        Some(i + 1)
    } else {
        if i < b.len() {
            assert(b@.skip(i as int)[0] == b@[i as int]);
        }
        None
    }
}

/// Whether nothing but white space follows.
fn at_end(b: &[u8], from: usize) -> (r: bool)
    requires
        from <= b@.len(),
    ensures
        r == (unspaced(b@.skip(from as int)).len() == 0),
{
    past_space(b, from) == b.len()
}

/// The members so far, and those that are still to come.
spec fn joined_members(
    before: Seq<(Seq<char>, Seq<u8>)>,
    rest: Option<Seq<(Seq<char>, Seq<u8>)>>,
) -> Option<Seq<(Seq<char>, Seq<u8>)>> {
    match rest {
        Some(more) => Some(before + more),
        None => None,
    }
}

/// Whether a list of members is the one that a model describes.
pub open spec fn is_members(
    r: Option<Vec<RawMember>>,
    m: Option<Seq<(Seq<char>, Seq<u8>)>>,
) -> bool {
    match r {
        Some(list) => m == Some(raw_models(list@)),
        None => m is None,
    }
}

/// The members from a key on, up to the end of the object and of the bytes.
fn split_members(b: &[u8], from: usize) -> (r: Option<Vec<RawMember>>)
    requires
        from <= b@.len(),
    ensures
        is_members(r, members_from(b@.skip(from as int))),
{
    let mut out: Vec<RawMember> = Vec::new();
    let n: usize = b.len();
    let mut at: usize = from;
    let ghost whole = members_from(b@.skip(from as int));
    proof {
        let none = raw_models(out@);
        assert(none =~= seq![]);
        if let Some(more) = whole {
            assert(none + more =~= more);
        }
    }
    loop
        invariant
            n == b@.len(),
            at <= n,
            whole == members_from(b@.skip(from as int)),
            whole == joined_members(raw_models(out@), members_from(b@.skip(at as int))),
        decreases n - at,
    {
        let ghost here = b@.skip(at as int);
        let tail = slice_subrange(b, at, n);
        assert(tail@ =~= here);
        let (key, len) = match read_key(tail) {
            Some(found) => found,
            None => return None,
        };
        let after: usize = at + len;
        assert(here.skip(len as int) =~= b@.skip(after as int));
        let start: usize = match eat(b, after, 0x3a) {
            Some(i) => i,
            None => return None,
        };
        let rest = slice_subrange(b, start, n);
        assert(rest@ =~= b@.skip(start as int));
        let size: usize = match skip_value(rest) {
            Some(m) => m,
            None => return None,
        };
        let end: usize = start + size;
        let raw = copy_range(b, start, end);
        assert(raw@ =~= rest@.take(size as int));
        assert(rest@.skip(size as int) =~= b@.skip(end as int));
        let ghost before = raw_models(out@);
        let ghost member = (key@, raw@);
        out.push(RawMember { key, raw });
        assert(raw_models(out@) =~= before.push(member));
        match eat(b, end, 0x2c) {
            Some(i) => {
                proof {
                    if let Some(more) = members_from(b@.skip(i as int)) {
                        assert(before + (seq![member] + more) =~= before.push(member) + more);
                    }
                }
                at = i;
            },
            None => {
                return match eat(b, end, 0x7d) {
                    Some(i) => if at_end(b, i) {
                        assert(before + seq![member] =~= before.push(member));
                        Some(out)
                    } else {
                        None
                    },
                    None => None,
                };
            },
        }
    }
}

/// Whether the first byte after white space opens an object.
pub fn is_object(b: &[u8]) -> (r: bool)
    ensures
        r == starts(b@, 0x7b),
{
    assert(b@.skip(0) =~= b@);
    eat(b, 0, 0x7b).is_some()
}

/// The members of the object that the bytes write, their values unread.
pub fn split_object(b: &[u8]) -> (r: Option<Vec<RawMember>>)
    ensures
        is_members(r, object_members(b@)),
{
    assert(b@.skip(0) =~= b@);
    let start: usize = match eat(b, 0, 0x7b) {
        Some(i) => i,
        None => return None,
    };
    match eat(b, start, 0x7d) {
        Some(i) => if at_end(b, i) {
            let none: Vec<RawMember> = Vec::new();
            assert(raw_models(none@) =~= seq![]);
            Some(none)
        } else {
            None
        },
        None => split_members(b, start),
    }
}

/// The bytes of the value under a key that stands exactly once.
pub fn only_value(members: &Vec<RawMember>, key: &str) -> (r: Option<Vec<u8>>)
    ensures
        match r {
            Some(raw) => only(raw_models(members@), key@) == Some(raw@),
            None => only(raw_models(members@), key@) is None,
        },
{
    let mut found: Option<usize> = None;
    let n: usize = members.len();
    let mut i: usize = 0;
    let ghost all = raw_models(members@);
    assert(under(all.take(0), key@) =~= seq![]);
    while i < n
        invariant
            n == members@.len(),
            i <= n,
            all == raw_models(members@),
            match found {
                Some(j) => j < n && under(all.take(i as int), key@) == seq![all[j as int].1],
                None => under(all.take(i as int), key@).len() == 0,
            },
        decreases n - i,
    {
        assert(all.take(i + 1).drop_last() =~= all.take(i as int));
        assert(all.take(i + 1).last() == all[i as int]);
        assert(all[i as int] == members@[i as int]@);
        if same_text(members[i].key.as_str(), key) {
            if found.is_some() {
                proof {
                    lemma_under_grows(all, i + 1, key@);
                    assert(all.take(n as int) =~= all);
                }
                return None;
            }
            found = Some(i);
            assert(under(all.take(i + 1), key@) =~= seq![all[i as int].1]);
        }
        i = i + 1;
    }
    assert(all.take(n as int) =~= all);
    match found {
        Some(j) => {
            let raw = &members[j].raw;
            let copy = copy_range(raw.as_slice(), 0, raw.len());
            assert(copy@ =~= all[j as int].1);
            Some(copy)
        },
        None => None,
    }
}

proof fn lemma_under_grows(members: Seq<(Seq<char>, Seq<u8>)>, n: int, key: Seq<char>)
    requires
        0 <= n <= members.len(),
    ensures
        under(members.take(n), key).len() <= under(members, key).len(),
    decreases members.len(),
{
    if n < members.len() {
        lemma_under_grows(members.drop_last(), n, key);
        assert(members.drop_last().take(n) =~= members.take(n));
    } else {
        assert(members.take(n) =~= members);
    }
}

/// White space before bytes does not matter: it is the four bytes of JSON's, and no
/// other byte.
pub proof fn law_unspaced(c: u8, b: Seq<u8>)
    ensures
        c == 0x20 || c == 0x0a || c == 0x09 || c == 0x0d ==> unspaced(seq![c] + b) == unspaced(b)
            && object_members(seq![c] + b) == object_members(b),
        c != 0x20 && c != 0x0a && c != 0x09 && c != 0x0d ==> unspaced(seq![c] + b) == seq![c] + b,
{
    assert((seq![c] + b).skip(1) =~= b);
}

/// An object is members between braces, with white space around them and nothing else:
/// no other bytes before or behind it, and no object without the brace that opens it.
pub proof fn law_object_members(b: Seq<u8>, c: u8)
    ensures
        !starts(b, 0x7b) ==> object_members(b) is None,
        object_members(seq![0x7bu8, 0x7du8]) matches Some(m) && m.len() == 0,
        c != 0x20 && c != 0x0a && c != 0x09 && c != 0x0d ==> object_members(
            seq![0x7bu8, 0x7du8, c],
        ) is None,
{
    let two = seq![0x7bu8, 0x7du8];
    let three = seq![0x7bu8, 0x7du8, c];
    assert(unspaced(two) == two);
    assert(beyond(two) =~= seq![0x7du8]);
    assert(beyond(beyond(two)) =~= seq![]);
    assert(unspaced(three) == three);
    assert(beyond(three) =~= seq![0x7du8, c]);
    assert(unspaced(beyond(three)) == beyond(three));
    assert(beyond(beyond(three)) =~= seq![c]);
    assert(!is_space(c) ==> unspaced(beyond(beyond(three))) == beyond(beyond(three)));
}

/// Members are read one by one: a key, a colon, a value, and then either a comma and
/// the members after it, or the brace that closes the object and nothing more.
pub proof fn law_member_by_member(b: Seq<u8>, key: Seq<char>, n: nat, v: Seq<u8>, m: nat)
    requires
        key_at(b) == Some((key, n)),
        n <= b.len(),
        starts(b.skip(n as int), 0x3a),
        v == beyond(b.skip(n as int)),
        value_length(v) == Some(m),
        m <= v.len(),
    ensures
        ({
            let rest = v.skip(m as int);
            let after = members_from(beyond(rest));
            &&& starts(rest, 0x2c) && after is Some ==> members_from(b) == Some(
                seq![(key, v.take(m as int))] + after->0,
            )
            &&& starts(rest, 0x2c) && after is None ==> members_from(b) is None
            &&& starts(rest, 0x7d) && unspaced(beyond(rest)).len() == 0 ==> members_from(b) == Some(
                seq![(key, v.take(m as int))],
            )
            &&& starts(rest, 0x7d) && unspaced(beyond(rest)).len() > 0 ==> members_from(b) is None
            &&& !starts(rest, 0x2c) && !starts(rest, 0x7d) ==> members_from(b) is None
            &&& !starts(b, 0x7d) ==> object_members(seq![0x7bu8] + b) == members_from(b)
        }),
{
    let whole = seq![0x7bu8] + b;
    assert(whole.skip(1) =~= b);
    assert(unspaced(whole) == whole);
}

}
