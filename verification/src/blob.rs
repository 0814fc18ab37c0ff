//! Replay blobs: raw Gemini parts, written as JSON under base64, that ride in a
//! reasoning item and say how many visible items before it they stand for.

use vstd::prelude::*;
use vstd::utf8::encode_utf8;

use base64::Engine;

use crate::codec::{listed, read_bytes, read_json_bytes, readable, reader_depth, three_fields_text, write_three_fields};
use crate::json::{group_json_models, models, Json, JsonModel, NumberModel};
use crate::members::{is_object, object_members, only, only_value, raw_models, split_object, starts, under, RawMember};

verus! {

/// The version that blobs are written in, and the only one that is read.
pub const BLOB_VERSION: u32 = 1;

/// Raw parts, and the number of visible items before the blob that they replace.
pub struct ReplayBlob {
    pub v: u32,
    pub covers_prev: usize,
    pub parts: Vec<Json>,
}

/// What a blob says.
#[verifier::ext_equal]
pub struct BlobModel {
    pub covers_prev: nat,
    pub parts: Seq<JsonModel>,
}

impl View for ReplayBlob {
    type V = BlobModel;

    open spec fn view(&self) -> BlobModel {
        BlobModel { covers_prev: self.covers_prev as nat, parts: models(self.parts@) }
    }
}

/// The base64 text of bytes.
pub uninterp spec fn base64_text(b: Seq<u8>) -> Seq<char>;

/// The bytes that a base64 text writes, where it writes any.
pub uninterp spec fn base64_bytes(s: Seq<char>) -> Option<Seq<u8>>;

/// `base64::Engine::encode` of `BASE64_STANDARD`: the base64 text of the bytes, a
/// function of the bytes alone. `decode` gives the bytes back.
#[verifier::external_body]
fn encode_base64(b: &Vec<u8>) -> (r: String)
    ensures
        r@ == base64_text(b@),
        base64_bytes(r@) == Some(b@),
{
    base64::prelude::BASE64_STANDARD.encode(b)
}

/// `base64::Engine::decode` of `BASE64_STANDARD`: the bytes, where the text is
/// base64, a function of the text alone.
#[verifier::external_body]
fn decode_base64(s: &str) -> (r: Option<Vec<u8>>)
    ensures
        match r {
            Some(b) => base64_bytes(s@) == Some(b@),
            None => base64_bytes(s@) is None,
        },
{
    base64::prelude::BASE64_STANDARD.decode(s).ok()
}

/// The bytes of JSON text that a blob is written as.
pub open spec fn blob_bytes(blob: BlobModel) -> Seq<u8> {
    encode_utf8(
        three_fields_text(
            "v"@,
            BLOB_VERSION as u64,
            "covers_prev"@,
            blob.covers_prev as u64,
            "parts"@,
            blob.parts,
        ),
    )
}

/// The text of a blob.
pub open spec fn blob_text(blob: BlobModel) -> Seq<char> {
    base64_text(blob_bytes(blob))
}

/// Whether a blob of these parts can be read back exactly.
pub open spec fn parts_readable(parts: Seq<JsonModel>) -> bool {
    readable(JsonModel::List(parts), (reader_depth() - 1) as nat)
}

/// The blob that three values write: the version, the number of items covered,
/// and the parts.
pub open spec fn blob_of_fields(
    v: Option<JsonModel>,
    covers_prev: Option<JsonModel>,
    parts: Option<JsonModel>,
) -> Option<BlobModel> {
    match (v, covers_prev, parts) {
        (Some(v), Some(c), Some(p)) => match (v.as_u64(), c.as_u64(), p.as_list()) {
            (Some(version), Some(covers), Some(items)) => if version == BLOB_VERSION && covers
                <= usize::MAX {
                Some(BlobModel { covers_prev: covers as nat, parts: items })
            } else {
                None
            },
            _ => None,
        },
        _ => None,
    }
}

/// The value that bytes under a key write, where there are any and they write one.
pub open spec fn value_in(raw: Option<Seq<u8>>) -> Option<JsonModel> {
    match raw {
        Some(r) => read_bytes(r),
        None => None,
    }
}

/// The value that bytes under a key write, one level down: it is within the
/// reader's limit on nesting where it is so inside its object.
pub open spec fn nested_value_in(raw: Option<Seq<u8>>) -> Option<JsonModel> {
    match raw {
        Some(r) => match read_bytes(listed(r)) {
            Some(JsonModel::List(items)) => if items.len() == 1 {
                Some(items[0])
            } else {
                None
            },
            _ => None,
        },
        None => None,
    }
}

/// The blob that the members of an object write: each of the three fields stands
/// exactly once. Members of other names are passed over unread.
pub open spec fn blob_of_members(members: Seq<(Seq<char>, Seq<u8>)>) -> Option<BlobModel> {
    blob_of_fields(
        value_in(only(members, "v"@)),
        value_in(only(members, "covers_prev"@)),
        nested_value_in(only(members, "parts"@)),
    )
}

/// The blob that a list writes: the three fields in order.
pub open spec fn blob_of_list(v: Option<JsonModel>) -> Option<BlobModel> {
    match v {
        Some(JsonModel::List(items)) => if items.len() == 3 {
            blob_of_fields(Some(items[0]), Some(items[1]), Some(items[2]))
        } else {
            None
        },
        _ => None,
    }
}

/// The blob that bytes of JSON text write: an object with the three fields by name,
/// or a list of the three in order.
pub open spec fn blob_of_bytes(b: Seq<u8>) -> Option<BlobModel> {
    if starts(b, 0x7b) {
        match object_members(b) {
            Some(members) => blob_of_members(members),
            None => None,
        }
    } else {
        blob_of_list(read_bytes(b))
    }
}

/// The blob that a text writes: base64, then JSON, then the fields.
pub open spec fn blob_of_text(s: Seq<char>) -> Option<BlobModel> {
    match base64_bytes(s) {
        Some(b) => blob_of_bytes(b),
        None => None,
    }
}

/// Whether a blob's text reads back as the blob.
pub open spec fn blob_survives(blob: BlobModel) -> bool {
    blob_of_text(blob_text(blob)) == Some(blob)
}

/// The optional value's model.
pub open spec fn option_model(v: Option<&Json>) -> Option<JsonModel> {
    match v {
        Some(j) => Some(j@),
        None => None,
    }
}

/// The optional value's model.
pub open spec fn option_view(v: Option<Json>) -> Option<JsonModel> {
    match v {
        Some(j) => Some(j@),
        None => None,
    }
}

/// The optional bytes.
pub open spec fn raw_view(raw: Option<Vec<u8>>) -> Option<Seq<u8>> {
    match raw {
        Some(b) => Some(b@),
        None => None,
    }
}

/// The blob that three values write: the version, the number of items covered,
/// and the parts. A blob of another version is none.
pub fn read_fields(v: Option<&Json>, covers_prev: Option<&Json>, parts: Option<&Json>) -> (r: Option<
    ReplayBlob,
>)
    ensures
        match r {
            Some(blob) => blob_of_fields(
                option_model(v),
                option_model(covers_prev),
                option_model(parts),
            ) == Some(blob@) && blob.v == BLOB_VERSION,
            None => blob_of_fields(
                option_model(v),
                option_model(covers_prev),
                option_model(parts),
            ) is None,
        },
{
    match (v, covers_prev, parts) {
        (Some(v), Some(c), Some(p)) => match (v.as_u64(), c.as_u64(), p.as_list()) {
            (Some(version), Some(covers), Some(items)) => {
                if version == BLOB_VERSION as u64 && covers <= usize::MAX as u64 {
                    let parts = crate::json::copy_list(items);
                    Some(ReplayBlob { v: BLOB_VERSION, covers_prev: covers as usize, parts })
                } else {
                    None
                }
            },
            _ => None,
        },
        _ => None,
    }
}

/// The value that bytes under a key write.
fn read_value(raw: &Option<Vec<u8>>) -> (r: Option<Json>)
    ensures
        option_view(r) == value_in(raw_view(*raw)),
{
    match raw {
        Some(b) => read_json_bytes(b.as_slice()),
        None => None,
    }
}

/// The value that bytes under a key write, one level down.
fn read_nested_value(raw: &Option<Vec<u8>>) -> (r: Option<Json>)
    ensures
        option_view(r) == nested_value_in(raw_view(*raw)),
{
    broadcast use group_json_models;

    match raw {
        Some(b) => {
            let mut text: Vec<u8> = Vec::new();
            text.push(0x5bu8);
            let n: usize = b.len();
            let mut i: usize = 0;
            assert(text@ =~= seq![0x5bu8] + b@.take(0));
            while i < n
                invariant
                    n == b@.len(),
                    i <= n,
                    text@ == seq![0x5bu8] + b@.take(i as int),
                decreases n - i,
            {
                text.push(b[i]);
                assert(seq![0x5bu8] + b@.take(i + 1) =~= (seq![0x5bu8] + b@.take(i as int)).push(
                    b@[i as int],
                ));
                i = i + 1;
            }
            text.push(0x5du8);
            assert(text@ =~= listed(b@));
            match read_json_bytes(text.as_slice()) {
                Some(v) => match v.as_list() {
                    Some(items) => if items.len() == 1 {
                        assert(models(items@)[0] == items@[0]@);
                        Some(items[0].copy())
                    } else {
                        None
                    },
                    None => None,
                },
                None => None,
            }
        },
        None => None,
    }
}

/// Reads a blob from the members of an object. Each of the three fields has to stand
/// exactly once; members of other names are passed over unread.
pub fn read_members(members: &Vec<RawMember>) -> (r: Option<ReplayBlob>)
    ensures
        match r {
            Some(blob) => blob_of_members(raw_models(members@)) == Some(blob@) && blob.v
                == BLOB_VERSION,
            None => blob_of_members(raw_models(members@)) is None,
        },
{
    let v = read_value(&only_value(members, "v"));
    let covers_prev = read_value(&only_value(members, "covers_prev"));
    let parts = read_nested_value(&only_value(members, "parts"));
    read_fields(v.as_ref(), covers_prev.as_ref(), parts.as_ref())
}

/// Reads a blob from a list of the three fields in order.
pub fn read_list(v: Option<Json>) -> (r: Option<ReplayBlob>)
    ensures
        match r {
            Some(blob) => blob_of_list(option_view(v)) == Some(blob@) && blob.v == BLOB_VERSION,
            None => blob_of_list(option_view(v)) is None,
        },
{
    broadcast use group_json_models;

    match v {
        Some(v) => match v.as_list() {
            Some(items) => if items.len() == 3 {
                let ghost all = models(items@);
                assert(all[0] == items@[0]@ && all[1] == items@[1]@ && all[2] == items@[2]@);
                read_fields(Some(&items[0]), Some(&items[1]), Some(&items[2]))
            } else {
                None
            },
            None => None,
        },
        None => None,
    }
}

/// Of three members with different keys each stands exactly once.
proof fn lemma_three_members(
    m: Seq<(Seq<char>, Seq<u8>)>,
    a: Seq<char>,
    b: Seq<char>,
    c: Seq<char>,
)
    requires
        m.len() == 3,
        m[0].0 == a,
        m[1].0 == b,
        m[2].0 == c,
        a != b,
        b != c,
        a != c,
    ensures
        only(m, a) == Some(m[0].1),
        only(m, b) == Some(m[1].1),
        only(m, c) == Some(m[2].1),
{
    let two = m.drop_last();
    let one = two.drop_last();
    let none = one.drop_last();
    assert(under(none, a) =~= seq![] && under(none, b) =~= seq![] && under(none, c) =~= seq![]);
    assert(one.last() == m[0] && two.last() == m[1]);
    assert(under(one, a) =~= seq![m[0].1]);
    assert(under(one, b) =~= seq![] && under(one, c) =~= seq![]);
    assert(under(two, a) =~= seq![m[0].1]);
    assert(under(two, b) =~= seq![m[1].1]);
    assert(under(two, c) =~= seq![]);
    assert(under(m, c) =~= seq![m[2].1]);
}

/// Writes a blob. Reading the text gives the blob back where the parts hold no
/// number but integers and the reader's limit on nesting admits them.
pub fn encode_blob(covers_prev: usize, parts: Vec<Json>) -> (r: String)
    ensures
        r@ == blob_text(BlobModel { covers_prev: covers_prev as nat, parts: models(parts@) }),
        parts_readable(models(parts@)) ==> blob_survives(
            BlobModel { covers_prev: covers_prev as nat, parts: models(parts@) },
        ),
{
    proof {
        reveal_strlit("v");
        reveal_strlit("covers_prev");
        reveal_strlit("parts");
    }
    let bytes = write_three_fields(
        "v",
        BLOB_VERSION as u64,
        "covers_prev",
        covers_prev as u64,
        "parts",
        &parts,
    );
    let text = encode_base64(&bytes);
    proof {
        assert("v"@.len() != "covers_prev"@.len());
        assert("v"@.len() != "parts"@.len());
        assert("covers_prev"@.len() != "parts"@.len());
        let m = object_members(bytes@)->0;
        lemma_three_members(m, "v"@, "covers_prev"@, "parts"@);
        if parts_readable(models(parts@)) {
            let items = seq![JsonModel::List(models(parts@))];
            assert(items.len() == 1 && items[0] == JsonModel::List(models(parts@)));
            assert(blob_of_bytes(bytes@) is Some);
        }
    }
    text
}

/// Reads a blob. Text that is no base64, no JSON or no blob of the version is none.
pub fn decode_blob(s: &str) -> (r: Option<ReplayBlob>)
    ensures
        match r {
            Some(blob) => blob_of_text(s@) == Some(blob@) && blob.v == BLOB_VERSION,
            None => blob_of_text(s@) is None,
        },
{
    match decode_base64(s) {
        Some(b) => if is_object(b.as_slice()) {
            match split_object(b.as_slice()) {
                Some(members) => read_members(&members),
                None => None,
            }
        } else {
            read_list(read_json_bytes(b.as_slice()))
        },
        None => None,
    }
}

/// A blob is what three fields say: version 1, the number of items that it covers, and
/// its parts, all of them. Anything else is none.
pub proof fn law_blob_fields(
    v: JsonModel,
    c: JsonModel,
    p: JsonModel,
    covers: u64,
    parts: Seq<JsonModel>,
)
    ensures
        v == JsonModel::Number(NumberModel::Unsigned(1)) && c == JsonModel::Number(
            NumberModel::Unsigned(covers),
        ) && covers <= usize::MAX && p == JsonModel::List(parts) ==> blob_of_fields(
            Some(v),
            Some(c),
            Some(p),
        ) == Some(BlobModel { covers_prev: covers as nat, parts }),
        v != JsonModel::Number(NumberModel::Unsigned(1)) ==> blob_of_fields(
            Some(v),
            Some(c),
            Some(p),
        ) is None,
        !(c matches JsonModel::Number(n) && n is Unsigned) ==> blob_of_fields(
            Some(v),
            Some(c),
            Some(p),
        ) is None,
        !(p is List) ==> blob_of_fields(Some(v), Some(c), Some(p)) is None,
        blob_of_fields(None, Some(c), Some(p)) is None,
        blob_of_fields(Some(v), None, Some(p)) is None,
        blob_of_fields(Some(v), Some(c), None) is None,
        blob_of_list(Some(JsonModel::List(seq![v, c, p]))) == blob_of_fields(
            Some(v),
            Some(c),
            Some(p),
        ),
{
    let three = seq![v, c, p];
    assert(three.len() == 3 && three[0] == v && three[1] == c && three[2] == p);
}

/// Members of other names do not matter, wherever they stand and whatever they hold; and
/// a field that stands twice makes no blob.
pub proof fn law_blob_members(
    members: Seq<(Seq<char>, Seq<u8>)>,
    name: Seq<char>,
    raw: Seq<u8>,
)
    ensures
        name != "v"@ && name != "covers_prev"@ && name != "parts"@ ==> blob_of_members(
            members.push((name, raw)),
        ) == blob_of_members(members),
        (name == "v"@ || name == "covers_prev"@ || name == "parts"@) && blob_of_members(members)
            is Some ==> blob_of_members(members.push((name, raw))) is None,
{
    let more = members.push((name, raw));
    assert(more.drop_last() =~= members);
    assert(name != "v"@ ==> under(more, "v"@) == under(members, "v"@));
}

/// A member is found by its name exactly where it stands once.
pub proof fn law_only(
    before: Seq<(Seq<char>, Seq<u8>)>,
    name: Seq<char>,
    raw: Seq<u8>,
    other: Seq<char>,
)
    ensures
        only(seq![(name, raw)], name) == Some(raw),
        other != name ==> only(before.push((other, raw)), name) == only(before, name),
        only(before, name) is Some ==> only(before.push((name, raw)), name) is None,
{
    assert(before.push((other, raw)).drop_last() =~= before);
    assert(before.push((name, raw)).drop_last() =~= before);
    let one = seq![(name, raw)];
    assert(one.drop_last() =~= seq![]);
    assert(under(one.drop_last(), name) =~= seq![]);
    assert(under(one, name) =~= seq![raw]);
}

/// A text is a blob where it is base64 of bytes that are one: of an object by its
/// members, and of anything else by the list that it is.
pub proof fn law_blob_of_text(s: Seq<char>, b: Seq<u8>)
    ensures
        base64_bytes(s) is None ==> blob_of_text(s) is None,
        base64_bytes(s) == Some(b) && starts(b, 0x7b) && object_members(b) is Some ==> blob_of_text(
            s,
        ) == blob_of_members(object_members(b)->0),
        base64_bytes(s) == Some(b) && starts(b, 0x7b) && object_members(b) is None ==> blob_of_text(
            s,
        ) is None,
        base64_bytes(s) == Some(b) && !starts(b, 0x7b) ==> blob_of_text(s) == blob_of_list(
            read_bytes(b),
        ),
{
}

/// A field is the value that its bytes write; and the parts are the one item of the list
/// that their bytes write between brackets.
pub proof fn law_blob_values(raw: Seq<u8>, v: JsonModel, items: Seq<JsonModel>)
    ensures
        value_in(Some(raw)) == read_bytes(raw),
        value_in(None) is None,
        read_bytes(seq![0x5bu8] + raw + seq![0x5du8]) == Some(JsonModel::List(seq![v]))
            ==> nested_value_in(Some(raw)) == Some(v),
        read_bytes(seq![0x5bu8] + raw + seq![0x5du8]) == Some(JsonModel::List(items))
            && items.len() != 1 ==> nested_value_in(Some(raw)) is None,
        !(read_bytes(seq![0x5bu8] + raw + seq![0x5du8]) matches Some(JsonModel::List(_)))
            ==> nested_value_in(Some(raw)) is None,
        nested_value_in(None) is None,
{
    let one = seq![v];
    assert(one.len() == 1 && one[0] == v);
}

}
