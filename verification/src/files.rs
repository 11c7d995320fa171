//! Pushing files: a header frame that announces the file in JSON, then the
//! file in pieces of 8 KiB, each frame acknowledged before the next goes out.
use crate::commands::{carries, closed_json, FilePushType};
use crate::error::Error;
use crate::frame::{fits, messages, Frame, Message, OP_FILE_CHUNK, OP_FILE_HEADER};
use crate::json::{
    as_object, compact, compact_bytes, compact_members, copy, entries, escaped_text, get, has_key,
    law_one_more_member, law_plain_text_is_quoted_as_it_is, member, members_of, new_object, number,
    object, put, quoted, text, tree, unsigned, value_at, with_member, Json, Members,
};
use crate::text::{decimal, signed_decimal};
use serde_json::Value;
use vstd::prelude::*;
use vstd::slice::{slice_subrange, slice_to_vec};
use vstd::utf8::encode_utf8;

verus! {

/// How many bytes of a file go into one frame.
pub const CHUNK_SIZE: usize = 8192;

/// The pieces of a file, in order: all but the last are full.
pub open spec fn pieces(bytes: Seq<u8>) -> Seq<Seq<u8>> {
    Seq::new(
        piece_count(bytes.len()),
        |i: int| bytes.subrange(i * CHUNK_SIZE, piece_end(bytes.len(), i)),
    )
}

/// How many pieces a file of this length has.
pub open spec fn piece_count(len: nat) -> nat {
    (len + CHUNK_SIZE - 1) as nat / CHUNK_SIZE as nat
}

/// Where piece `i` of a file of this length ends.
pub open spec fn piece_end(len: nat, i: int) -> int {
    if (i + 1) * CHUNK_SIZE < len {
        (i + 1) * CHUNK_SIZE
    } else {
        len as int
    }
}

/// `n` as four bytes, the lowest first.
pub open spec fn four_bytes(n: int) -> Seq<u8> {
    seq![
        (n % 256) as u8,
        (n / 256 % 256) as u8,
        (n / 65536 % 256) as u8,
        (n / 16777216 % 256) as u8,
    ]
}

/// The frame that carries a piece of a file: its size in 32 bits, a flag that
/// is always zero, and the bytes.
pub open spec fn chunk_message(chunk: Seq<u8>) -> Message {
    Message {
        op: OP_FILE_CHUNK,
        payload: four_bytes(chunk.len() as int).push(0) + chunk,
    }
}

/// The frame that announces a file.
pub open spec fn header_message(header: Json) -> Message {
    Message { op: OP_FILE_HEADER, payload: compact_bytes(header).push(0) }
}

/// The object `{"size": size, "type": kind, "name": name}`.
pub open spec fn announce_tree(kind: Seq<char>, name: Seq<char>, size: int) -> Json {
    Json::Object(
        seq![("size"@, number(size)), ("type"@, Json::Text(kind)), ("name"@, Json::Text(name))],
    )
}

/// The frames that push a file: the header, then one for each piece.
pub open spec fn file_messages(header: Json, parts: Seq<Seq<u8>>) -> Seq<Message> {
    seq![header_message(header)] + parts.map_values(|p: Seq<u8>| chunk_message(p))
}

/// Announces a file by kind, name and size.
pub fn build_announce(file_type: &str, name: &str, size: usize) -> (res: Result<Frame, Error>)
    ensures
        res is Ok,
        res->Ok_0@ == header_message(announce_tree(file_type@, name@, size as int)),
        carries(res->Ok_0@.payload, announce_tree(file_type@, name@, size as int)),
{
    proof {
        reveal_strlit("size");
        reveal_strlit("type");
        reveal_strlit("name");
        assert("size"@[0] == 's' && "type"@[0] == 't' && "name"@[0] == 'n');
    }
    let m = with_member(new_object(), "size", unsigned(size as u64));
    let m = with_member(m, "type", text(file_type));
    let m = with_member(m, "name", text(name));
    let header: Value = object(m);
    assert(tree(header)->Object_0 =~= announce_tree(file_type@, name@, size as int)->Object_0);
    build_header(&header)
}

fn build_header(header: &Value) -> (res: Result<Frame, Error>)
    ensures
        res is Ok,
        res->Ok_0@ == header_message(tree(*header)),
        carries(res->Ok_0@.payload, tree(*header)),
{
    match closed_json(header) {
        Ok(payload) => Ok(Frame::new(OP_FILE_HEADER, payload)),
        Err(e) => Err(e),
    }
}

/// The frame that carries a piece of a file.
pub fn build_chunk(chunk: &[u8]) -> (res: Frame)
    ensures
        res@ == chunk_message(chunk@),
{
    let size: u64 = chunk.len() as u64;
    let mut payload: Vec<u8> = Vec::new();
    payload.push((size % 256) as u8);
    payload.push((size / 256 % 256) as u8);
    payload.push((size / 65536 % 256) as u8);
    payload.push((size / 16777216 % 256) as u8);
    payload.push(0);
    payload.extend_from_slice(chunk);
    assert(payload@ =~= chunk_message(chunk@).payload);
    Frame::new(OP_FILE_CHUNK, payload)
}

/// Appends to `frames` one frame for each piece of `bytes`.
fn build_chunks(bytes: &[u8], frames: &mut Vec<Frame>)
    ensures
        messages(final(frames)@) == messages(old(frames)@) + pieces(bytes@).map_values(
            |p: Seq<u8>| chunk_message(p),
        ),
{
    let len: usize = bytes.len();
    let ghost parts = pieces(bytes@).map_values(|p: Seq<u8>| chunk_message(p));
    let ghost before = messages(frames@);
    let mut at: usize = 0;
    let ghost mut i: int = 0;
    assert(messages(frames@) =~= before + parts.take(0));
    while at < len
        invariant
            len == bytes@.len(),
            parts == pieces(bytes@).map_values(|p: Seq<u8>| chunk_message(p)),
            0 <= i <= parts.len(),
            at <= len,
            at < len ==> at == i * CHUNK_SIZE,
            at == len ==> i == parts.len(),
            messages(frames@) == before + parts.take(i),
        decreases len - at,
    {
        let end: usize = if len - at > CHUNK_SIZE {
            at + CHUNK_SIZE
        } else {
            len
        };
        proof {
            assert(i < parts.len());
            assert(end == piece_end(bytes@.len(), i));
        }
        let ghost known = frames@;
        frames.push(build_chunk(slice_subrange(bytes, at, end)));
        assert(messages(frames@) =~= messages(known).push(parts[i]));
        assert(parts.take(i + 1) =~= parts.take(i).push(parts[i]));
        assert(messages(frames@) =~= before + parts.take(i + 1));
        at = end;
        proof {
            i = i + 1;
        }
    }
    assert(parts.take(parts.len() as int) =~= parts);
}

/// The frames that push a file, in order. Each is to be acknowledged before
/// the next goes out.
pub fn push_file(file_type: &FilePushType, name: &str, bytes: &[u8]) -> (res: Result<
    Vec<Frame>,
    Error,
>)
    ensures
        res is Ok,
        messages(res->Ok_0@) == file_messages(
            announce_tree(file_type.name(), name@, bytes@.len() as int),
            pieces(bytes@),
        ),
        received(messages(res->Ok_0@)) == seq![
            Received {
                header: encode_utf8(
                    "{\"size\":"@ + decimal(bytes@.len()) + ",\"type\":"@ + quoted(file_type.name())
                        + ",\"name\":"@ + quoted(name@) + "}"@,
                ).push(0),
                body: bytes@,
            },
        ],
{
    proof {
        let header = announce_tree(file_type.name(), name@, bytes@.len() as int);
        law_text_of_an_announcement(file_type.name(), name@, bytes@.len());
        law_file_is_received(Seq::empty(), header, bytes@);
        let frames = file_messages(header, pieces(bytes@));
        assert(Seq::<Message>::empty() + frames =~= frames);
        assert(received(Seq::empty()) =~= Seq::empty());
    }
    match build_announce(file_type.as_str(), name, bytes.len()) {
        Err(e) => Err(e),
        Ok(announce) => {
            let mut frames: Vec<Frame> = Vec::new();
            frames.push(announce);
            assert(messages(frames@) =~= seq![announce@]);
            build_chunks(bytes, &mut frames);
            Ok(frames)
        },
    }
}

/// The header of a typed file: its size, its type, then what else `meta` says
/// in the order in which it says it. The device is strict about that order.
pub open spec fn typed_header(meta: Json, size: int) -> Json {
    Json::Object(
        seq![("size"@, number(size))] + (match member(meta, "type"@) {
            Some(kind) => seq![("type"@, kind)],
            None => Seq::empty(),
        }) + other_members(meta),
    )
}

/// The members of `meta` other than its size and its type.
pub open spec fn other_members(meta: Json) -> Members {
    match meta {
        Json::Object(members) => members.filter(|e: (Seq<char>, Json)| is_other(e)),
        _ => Seq::empty(),
    }
}

/// Whether the member is neither the size nor the type.
pub open spec fn is_other(e: (Seq<char>, Json)) -> bool {
    e.0 != "size"@ && e.0 != "type"@
}

/// The pieces of a file's body: those of the file, with a NUL behind the last
/// one where the body is to end with a NUL.
pub open spec fn body_pieces(bytes: Seq<u8>, nul: bool) -> Seq<Seq<u8>> {
    if !nul {
        pieces(bytes)
    } else if bytes.len() == 0 {
        seq![seq![0u8]]
    } else {
        pieces(bytes).drop_last().push(pieces(bytes).last().push(0))
    }
}

/// What is pushed as a body: the file, and a NUL where one is owed.
pub open spec fn body(bytes: Seq<u8>, nul: bool) -> Seq<u8> {
    if nul {
        bytes.push(0)
    } else {
        bytes
    }
}

/// The frames that push a typed file.
pub open spec fn typed_messages(meta: Json, bytes: Seq<u8>, nul: bool) -> Seq<Message> {
    file_messages(
        typed_header(meta, body(bytes, nul).len() as int),
        body_pieces(bytes, nul),
    )
}

proof fn lemma_filter_step(members: Members, i: int)
    requires
        0 <= i < members.len(),
    ensures
        members.take(i + 1).filter(|e: (Seq<char>, Json)| is_other(e)) == (if is_other(
            members[i],
        ) {
            members.take(i).filter(|e: (Seq<char>, Json)| is_other(e)).push(members[i])
        } else {
            members.take(i).filter(|e: (Seq<char>, Json)| is_other(e))
        }),
{
    reveal(Seq::filter);
    assert(members.take(i + 1).drop_last() =~= members.take(i));
}

proof fn lemma_filter_comes_from(members: Members, key: Seq<char>)
    ensures
        has_key(members.filter(|e: (Seq<char>, Json)| is_other(e)), key) ==> has_key(members, key)
            && key != "size"@ && key != "type"@,
{
    broadcast use vstd::seq_lib::group_filter_ensures;

    let pred = |e: (Seq<char>, Json)| is_other(e);
    let kept = members.filter(pred);
    if has_key(kept, key) {
        let i = choose|i: int| 0 <= i < kept.len() && (#[trigger] kept[i]).0 == key;
        assert(pred(kept[i]));
        assert(kept.contains(kept[i]));
        members.lemma_filter_contains_rev(pred, kept[i]);
        let j = choose|j: int| 0 <= j < members.len() && members[j] == kept[i];
        assert(members[j].0 == key);
    }
}

/// Builds the header of a typed file in the order that the device expects.
pub fn build_typed_header(meta: &Value, size: u64) -> (res: Value)
    ensures
        tree(res) == typed_header(tree(*meta), size as int),
{
    proof {
        reveal_strlit("size");
        reveal_strlit("type");
        assert("size"@[0] == 's' && "type"@[0] == 't');
    }
    let mut m = with_member(new_object(), "size", unsigned(size));
    let ghost mut front = seq![("size"@, number(size as int))];
    assert(members_of(m) =~= front);
    match get(meta, "type") {
        Some(kind) => {
            m = with_member(m, "type", copy(kind));
            proof {
                front = front.push(("type"@, tree(*kind)));
            }
        },
        None => {},
    }
    assert(front =~= seq![("size"@, number(size as int))] + (match member(
        tree(*meta),
        "type"@,
    ) {
        Some(kind) => seq![("type"@, kind)],
        None => Seq::empty(),
    }));
    match as_object(meta) {
        Some(given) => {
            let list = entries(given);
            let ghost members = members_of(*given);
            let ghost pred = |e: (Seq<char>, Json)| is_other(e);
            let mut i: usize = 0;
            assert(members.take(0).filter(pred) =~= Seq::empty()) by {
                reveal(Seq::filter);
            }
            assert(members_of(m) =~= front + members.take(0).filter(pred));
            while i < list.len()
                invariant
                    i <= list@.len(),
                    list@.len() == members.len(),
                    pred == (|e: (Seq<char>, Json)| is_other(e)),
                    forall|k: int|
                        #![trigger list@[k]]
                        0 <= k < list@.len() ==> list@[k].0@ == members[k].0 && tree(*list@[k].1)
                            == members[k].1,
                    forall|k: int, l: int|
                        0 <= k < l < list@.len() ==> (#[trigger] list@[k]).0@ != (
                        #[trigger] list@[l]).0@,
                    forall|k: int|
                        0 <= k < front.len() ==> !is_other(#[trigger] front[k]),
                    members_of(m) == front + members.take(i as int).filter(pred),
                decreases list@.len() - i,
            {
                let key: &String = list[i].0;
                let value: &Value = list[i].1;
                proof {
                    lemma_filter_step(members, i as int);
                }
                if !crate::text::same_text(key.as_str(), "type") && !crate::text::same_text(
                    key.as_str(),
                    "size",
                ) {
                    let ghost so_far = members.take(i as int).filter(pred);
                    proof {
                        lemma_filter_comes_from(members.take(i as int), key@);
                        if has_key(so_far, key@) {
                            let k = choose|k: int|
                                0 <= k < i && (#[trigger] members.take(i as int)[k]).0 == key@;
                            assert(list@[k].0@ == members[k].0);
                            assert(list@[k].0@ != list@[i as int].0@);
                        }
                        assert(!has_key(front + so_far, key@)) by {
                            if has_key(front + so_far, key@) {
                                let k = choose|k: int|
                                    0 <= k < (front + so_far).len() && (#[trigger] (front
                                        + so_far)[k]).0 == key@;
                                if k < front.len() {
                                    assert(!is_other(front[k]));
                                } else {
                                    assert(so_far[k - front.len()].0 == key@);
                                }
                            }
                        }
                    }
                    m = with_member(m, key.as_str(), copy(value));
                    assert(members_of(m) =~= front + so_far.push(members[i as int]));
                }
                i = i + 1;
            }
            assert(members.take(members.len() as int) =~= members);
        },
        None => {
            assert(members_of(m) =~= front + other_members(tree(*meta)));
        },
    }
    let res: Value = object(m);
    res
}

/// The frames that push a typed file, in order. `meta` says what the header
/// says besides the size; the body is `bytes`, and a NUL where `nul` asks for
/// one.
pub fn push_typed_file(meta: &Value, bytes: &[u8], nul: bool) -> (res: Result<Vec<Frame>, Error>)
    ensures
        res is Ok,
        messages(res->Ok_0@) == typed_messages(tree(*meta), bytes@, nul),
        received(messages(res->Ok_0@)).len() == 1,
        !nul ==> received(messages(res->Ok_0@))[0].body == bytes@,
        nul ==> received(messages(res->Ok_0@))[0].body == bytes@.push(0),
{
    proof {
        let frames = typed_messages(tree(*meta), bytes@, nul);
        law_typed_file_is_received(Seq::empty(), tree(*meta), bytes@, nul);
        assert(Seq::<Message>::empty() + frames =~= frames);
        assert(received(Seq::empty()) =~= Seq::empty());
    }
    let mut sent: Vec<u8> = slice_to_vec(bytes);
    if nul {
        sent.push(0);
    }
    let header: Value = build_typed_header(meta, sent.len() as u64);
    let announce: Frame = match build_header(&header) {
        Ok(frame) => frame,
        Err(e) => {
            return Err(e);
        },
    };
    let mut frames: Vec<Frame> = Vec::new();
    frames.push(announce);
    assert(messages(frames@) =~= seq![announce@]);
    if !nul {
        build_chunks(bytes, &mut frames);
        return Ok(frames);
    }
    let len: usize = bytes.len();
    let last: usize = if len == 0 {
        0
    } else {
        (len - 1) / CHUNK_SIZE * CHUNK_SIZE
    };
    proof {
        if len > 0 {
            lemma_last_piece(bytes@);
        }
    }
    build_chunks(slice_subrange(bytes, 0, last), &mut frames);
    let ghost known = frames@;
    frames.push(build_chunk(slice_subrange(sent.as_slice(), last, sent.len())));
    proof {
        let chunk = |p: Seq<u8>| chunk_message(p);
        let tail = sent@.subrange(last as int, sent@.len() as int);
        assert(messages(frames@) =~= messages(known).push(chunk_message(tail)));
        assert(bytes@.subrange(0, last as int) =~= bytes@.take(last as int));
        if len == 0 {
            assert(tail =~= seq![0u8]);
            assert(pieces(bytes@.take(0)) =~= Seq::empty());
        } else {
            assert(tail =~= pieces(bytes@).last().push(0));
        }
        assert(body_pieces(bytes@, true) =~= pieces(bytes@.take(last as int)).push(tail));
        assert(body_pieces(bytes@, true).map_values(chunk) =~= pieces(
            bytes@.take(last as int),
        ).map_values(chunk).push(chunk_message(tail)));
        assert(messages(frames@) =~= typed_messages(tree(*meta), bytes@, nul));
    }
    Ok(frames)
}

/// All pieces but the last are those of what precedes the last.
proof fn lemma_last_piece(bytes: Seq<u8>)
    requires
        bytes.len() > 0,
    ensures
        ({
            let last = (bytes.len() - 1) / CHUNK_SIZE as int * CHUNK_SIZE;
            &&& 0 <= last < bytes.len()
            &&& pieces(bytes.take(last)) == pieces(bytes).drop_last()
            &&& pieces(bytes).len() > 0
            &&& pieces(bytes).last() == bytes.skip(last)
        }),
{
    let n = (bytes.len() - 1) / CHUNK_SIZE as int;
    let last = n * CHUNK_SIZE;
    assert(piece_count(bytes.len()) == n + 1);
    assert(piece_count(bytes.take(last).len()) == n);
    assert forall|i: int| 0 <= i < n implies pieces(bytes.take(last))[i] == pieces(bytes)[i] by {
        assert((i + 1) * CHUNK_SIZE <= last);
        assert(pieces(bytes.take(last))[i] =~= pieces(bytes)[i]);
    }
    assert(pieces(bytes.take(last)) =~= pieces(bytes).drop_last());
    assert(pieces(bytes).last() =~= bytes.skip(last));
}

/// The pieces of a file, put together again, are the file. None is empty, none
/// is larger than 8 KiB, and all but the last are full.
pub proof fn law_pieces_make_the_file(bytes: Seq<u8>)
    ensures
        pieces(bytes).flatten() == bytes,
        forall|i: int|
            0 <= i < pieces(bytes).len() ==> 1 <= (#[trigger] pieces(bytes)[i]).len() <= CHUNK_SIZE,
        forall|i: int|
            0 <= i < pieces(bytes).len() - 1 ==> (#[trigger] pieces(bytes)[i]).len() == CHUNK_SIZE,
    decreases bytes.len(),
{
    if bytes.len() == 0 {
        assert(pieces(bytes) =~= Seq::empty());
        assert(bytes =~= Seq::empty());
    } else {
        lemma_last_piece(bytes);
        let last = (bytes.len() - 1) / CHUNK_SIZE as int * CHUNK_SIZE;
        law_pieces_make_the_file(bytes.take(last));
        let before = pieces(bytes).drop_last();
        before.lemma_flatten_push(pieces(bytes).last());
        assert(before.push(pieces(bytes).last()) =~= pieces(bytes));
        assert(bytes.take(last) + bytes.skip(last) =~= bytes);
    }
}

/// What the frames of a typed file carry, put together, is the body, and the
/// header tells its length.
pub proof fn law_body_is_sent(meta: Json, bytes: Seq<u8>, nul: bool)
    ensures
        body_pieces(bytes, nul).flatten() == body(bytes, nul),
        typed_messages(meta, bytes, nul).len() == 1 + body_pieces(bytes, nul).len(),
        typed_messages(meta, bytes, nul)[0] == header_message(
            typed_header(meta, body_pieces(bytes, nul).flatten().len() as int),
        ),
        forall|i: int|
            0 <= i < body_pieces(bytes, nul).len() ==> #[trigger] typed_messages(
                meta,
                bytes,
                nul,
            )[i + 1] == chunk_message(body_pieces(bytes, nul)[i]),
{
    law_pieces_make_the_file(bytes);
    if nul {
        if bytes.len() == 0 {
            body_pieces(bytes, nul).lemma_flatten_one_element();
            assert(bytes =~= Seq::empty());
            assert(body(bytes, nul) =~= seq![0u8]);
        } else {
            lemma_last_piece(bytes);
            let before = pieces(bytes).drop_last();
            let last = pieces(bytes).last();
            before.lemma_flatten_push(last);
            before.lemma_flatten_push(last.push(0));
            assert(before.push(last) =~= pieces(bytes));
            assert(before.flatten() + last.push(0) =~= (before.flatten() + last).push(0));
        }
    }
}

/// The frames of a body always fit the length field of a frame.
pub proof fn law_pieces_fit(bytes: Seq<u8>, nul: bool)
    ensures
        forall|i: int|
            0 <= i < body_pieces(bytes, nul).len() ==> fits(
                chunk_message(#[trigger] body_pieces(bytes, nul)[i]),
            ),
{
    law_pieces_make_the_file(bytes);
    assert forall|i: int| 0 <= i < body_pieces(bytes, nul).len() implies fits(
        chunk_message(#[trigger] body_pieces(bytes, nul)[i]),
    ) by {
        if nul && bytes.len() > 0 {
            lemma_last_piece(bytes);
            if i == pieces(bytes).len() - 1 {
                assert(pieces(bytes)[i].len() <= CHUNK_SIZE);
            }
        }
    }
}

proof fn lemma_members_begin(members: Members, k: int)
    requires
        0 <= k <= members.len(),
    ensures
        compact_members(members.take(k)).is_prefix_of(compact_members(members)),
    decreases members.len(),
{
    if k == members.len() {
        assert(members.take(k) =~= members);
    } else {
        lemma_members_begin(members.drop_last(), k);
        assert(members.drop_last().take(k) =~= members.take(k));
        assert(compact_members(members.drop_last()).is_prefix_of(compact_members(members)));
    }
}

proof fn lemma_size_quoted()
    ensures
        quoted("size"@) == "\"size\""@,
        quoted("type"@) == "\"type\""@,
{
    reveal_strlit("size");
    reveal_strlit("type");
    reveal_strlit("\"size\"");
    reveal_strlit("\"type\"");
    reveal_with_fuel(escaped_text, 5);
    assert(quoted("size"@) =~= "\"size\""@);
    assert(quoted("type"@) =~= "\"type\""@);
}

/// Whatever order `meta` has, the header's text opens with the size, and the
/// type comes next.
#[verifier::rlimit(40)]
pub proof fn law_header_opens_with_size_and_type(meta: Json, size: nat)
    ensures
        ("{\"size\":"@ + decimal(size)).is_prefix_of(compact(typed_header(meta, size as int))),
        member(meta, "type"@) is Some ==> ("{\"size\":"@ + decimal(size) + ",\"type\":"@ + compact(
            member(meta, "type"@)->0,
        )).is_prefix_of(compact(typed_header(meta, size as int))),
{
    let members = typed_header(meta, size as int)->Object_0;
    lemma_size_quoted();
    reveal_strlit("{\"size\":");
    reveal_strlit(",\"type\":");
    reveal_strlit("\"size\"");
    reveal_strlit("\"type\"");
    reveal_with_fuel(compact_members, 3);
    lemma_members_begin(members, 1);
    let one = compact_members(members.take(1));
    assert(members.take(1).drop_last() =~= Seq::empty());
    assert(seq!['{'] + one =~= "{\"size\":"@ + decimal(size));
    if member(meta, "type"@) is Some {
        lemma_members_begin(members, 2);
        let two = compact_members(members.take(2));
        assert(members.take(2).drop_last() =~= members.take(1));
        assert(seq!['{'] + two =~= "{\"size\":"@ + decimal(size) + ",\"type\":"@ + compact(
            member(meta, "type"@)->0,
        ));
    }
}

/// The frame that carries a piece of a file: opcode 0x07, the piece's length in
/// four bytes with the lowest first, a zero, and the piece.
pub proof fn law_layout_of_a_piece(chunk: Seq<u8>)
    requires
        chunk.len() < 0x1_0000_0000,
    ensures
        ({
            let p = chunk_message(chunk).payload;
            &&& chunk_message(chunk).op == 0x07
            &&& p.len() == chunk.len() + 5
            &&& p[0] as int + 256 * p[1] + 65536 * p[2] + 16777216 * p[3] == chunk.len()
            &&& p[4] == 0
            &&& p.skip(5) == chunk
        }),
{
    let p = chunk_message(chunk).payload;
    let n = chunk.len() as int;
    assert(p.skip(5) =~= chunk);
    assert(n % 256 + 256 * (n / 256 % 256) + 65536 * (n / 65536 % 256) + 16777216 * (n / 16777216
        % 256) == n);
}

/// The frame that announces a file: opcode 0x06, and JSON text closed by a zero.
pub proof fn law_layout_of_a_header(header: Json)
    ensures
        header_message(header).op == 0x06,
        header_message(header).payload == encode_utf8(compact(header)).push(0),
{
}

/// The header of a typed file says of everything but its size what it was asked
/// to say, in the same order: the type goes in front of the rest.
pub proof fn law_header_says_what_was_asked(members: Members, size: int)
    ensures
        ({
            let said = typed_header(Json::Object(members), size);
            let rest = members.filter(
                |e: (Seq<char>, Json)| e.0 != "size"@ && e.0 != "type"@,
            );
            &&& said is Object
            &&& said->Object_0.len() > 0
            &&& said->Object_0[0] == ("size"@, Json::Number(signed_decimal(size)))
            &&& match value_at(members, "type"@) {
                Some(kind) => said->Object_0 == seq![
                    ("size"@, Json::Number(signed_decimal(size))),
                    ("type"@, kind),
                ] + rest,
                None => said->Object_0 == seq![("size"@, Json::Number(signed_decimal(size)))]
                    + rest,
            }
        }),
{
    let other = |e: (Seq<char>, Json)| is_other(e);
    let rest = |e: (Seq<char>, Json)| e.0 != "size"@ && e.0 != "type"@;
    lemma_same_filter(members);
    let said = typed_header(Json::Object(members), size)->Object_0;
    match value_at(members, "type"@) {
        Some(kind) => {
            assert(said =~= seq![("size"@, number(size)), ("type"@, kind)] + members.filter(rest));
        },
        None => {
            assert(said =~= seq![("size"@, number(size))] + members.filter(rest));
        },
    }
}

proof fn lemma_same_filter(members: Members)
    ensures
        members.filter(|e: (Seq<char>, Json)| is_other(e)) == members.filter(
            |e: (Seq<char>, Json)| e.0 != "size"@ && e.0 != "type"@,
        ),
    decreases members.len(),
{
    reveal(Seq::filter);
    if members.len() > 0 {
        lemma_same_filter(members.drop_last());
    }
}

/// The text of an announcement: the size, the type and the name, in this order.
pub proof fn law_text_of_an_announcement(kind: Seq<char>, name: Seq<char>, size: nat)
    ensures
        compact(announce_tree(kind, name, size as int)) == "{\"size\":"@ + decimal(size)
            + ",\"type\":"@ + quoted(kind) + ",\"name\":"@ + quoted(name) + "}"@,
{
    lemma_size_quoted();
    reveal_strlit("name");
    law_plain_text_is_quoted_as_it_is("name"@);
    let none = Seq::<(Seq<char>, Json)>::empty();
    let one = none.push(("size"@, number(size as int)));
    let two = one.push(("type"@, Json::Text(kind)));
    let three = two.push(("name"@, Json::Text(name)));
    law_one_more_member(none, "size"@, number(size as int));
    law_one_more_member(one, "type"@, Json::Text(kind));
    law_one_more_member(two, "name"@, Json::Text(name));
    assert(three =~= announce_tree(kind, name, size as int)->Object_0);
    assert(compact_members(none) =~= Seq::empty());
    reveal_strlit("{\"size\":");
    reveal_strlit(",\"type\":");
    reveal_strlit(",\"name\":");
    reveal_strlit("\"size\"");
    reveal_strlit("\"type\"");
    reveal_strlit("}");
    let c1 = compact_members(one);
    assert(seq!['{'] + c1 =~= "{\"size\":"@ + decimal(size));
    let c2 = compact_members(two);
    assert(seq!['{'] + c2 =~= "{\"size\":"@ + decimal(size) + ",\"type\":"@ + quoted(kind));
    let c3 = compact_members(three);
    assert(seq!['{'] + c3 =~= "{\"size\":"@ + decimal(size) + ",\"type\":"@ + quoted(kind)
        + ",\"name\":"@ + quoted(name));
    assert(compact(announce_tree(kind, name, size as int)) =~= (seq!['{'] + c3) + "}"@);
}

/// A file that the device has received: the payload of its header, and what the
/// pieces behind it hold.
#[verifier::ext_equal]
pub ghost struct Received {
    pub header: Seq<u8>,
    pub body: Seq<u8>,
}

/// The files that a device makes of some frames: a header opens one, and each
/// piece behind it adds what follows its size and flag.
pub open spec fn received(frames: Seq<Message>) -> Seq<Received>
    decreases frames.len(),
{
    if frames.len() == 0 {
        Seq::empty()
    } else {
        let before = received(frames.drop_last());
        let m = frames.last();
        if m.op == 0x06 {
            before.push(Received { header: m.payload, body: Seq::empty() })
        } else if m.op == 0x07 && before.len() > 0 {
            before.drop_last().push(
                Received { body: before.last().body + m.payload.skip(5), ..before.last() },
            )
        } else {
            before
        }
    }
}

proof fn lemma_pieces_received(before: Seq<Message>, parts: Seq<Seq<u8>>)
    requires
        received(before).len() > 0,
    ensures
        received(before + parts.map_values(|p: Seq<u8>| chunk_message(p))) == received(
            before,
        ).drop_last().push(
            Received {
                body: received(before).last().body + parts.flatten(),
                ..received(before).last()
            },
        ),
    decreases parts.len(),
{
    let chunk = |p: Seq<u8>| chunk_message(p);
    let all = before + parts.map_values(chunk);
    let had = received(before);
    if parts.len() == 0 {
        assert(all =~= before);
        assert(parts =~= Seq::empty());
        assert(had.last().body + parts.flatten() =~= had.last().body);
        assert(had.drop_last().push(had.last()) =~= had);
    } else {
        let front = parts.drop_last();
        lemma_pieces_received(before, front);
        assert(all.drop_last() =~= before + front.map_values(chunk));
        assert(all.last() == chunk_message(parts.last()));
        assert(chunk_message(parts.last()).payload.skip(5) =~= parts.last());
        front.lemma_flatten_push(parts.last());
        assert(front.push(parts.last()) =~= parts);
        let mid = received(all.drop_last());
        assert(mid.drop_last() =~= had.drop_last());
        assert(mid.last().body + parts.last() =~= had.last().body + parts.flatten());
        assert(received(all) =~= had.drop_last().push(
            Received { body: had.last().body + parts.flatten(), ..had.last() },
        ));
    }
}

/// A device that is sent a file after others has received that file, and the
/// others as before: `header` is what it was told, and the body is exactly the
/// file.
pub proof fn law_file_is_received(before: Seq<Message>, header: Json, bytes: Seq<u8>)
    ensures
        received(before + file_messages(header, pieces(bytes))) == received(before).push(
            Received { header: encode_utf8(compact(header)).push(0), body: bytes },
        ),
{
    law_pieces_make_the_file(bytes);
    lemma_file_received(before, header, pieces(bytes));
}

proof fn lemma_file_received(before: Seq<Message>, header: Json, parts: Seq<Seq<u8>>)
    ensures
        received(before + file_messages(header, parts)) == received(before).push(
            Received { header: encode_utf8(compact(header)).push(0), body: parts.flatten() },
        ),
{
    let chunks = parts.map_values(|p: Seq<u8>| chunk_message(p));
    let opened = before.push(header_message(header));
    assert(opened.drop_last() =~= before);
    assert(before + file_messages(header, parts) =~= opened + chunks);
    lemma_pieces_received(opened, parts);
    assert(received(opened).drop_last() =~= received(before));
    assert(Seq::<u8>::empty() + parts.flatten() =~= parts.flatten());
}

/// The same of a typed file: the body is the file, with a zero behind it where
/// one is asked for, and the header tells how long the body is.
pub proof fn law_typed_file_is_received(
    before: Seq<Message>,
    meta: Json,
    bytes: Seq<u8>,
    nul: bool,
)
    ensures
        ({
            let whole = if nul {
                bytes.push(0)
            } else {
                bytes
            };
            received(before + typed_messages(meta, bytes, nul)) == received(before).push(
                Received {
                    header: encode_utf8(compact(typed_header(meta, whole.len() as int))).push(0),
                    body: whole,
                },
            )
        }),
{
    law_body_is_sent(meta, bytes, nul);
    lemma_file_received(
        before,
        typed_header(meta, body(bytes, nul).len() as int),
        body_pieces(bytes, nul),
    );
}

/// A file goes out in pieces of 8192 bytes, and what is left over in the last
/// one. A zero behind the file goes with the last piece, or alone where the file
/// is empty.
pub proof fn law_size_of_the_pieces(bytes: Seq<u8>, i: int)
    ensures
        pieces(bytes).len() == (bytes.len() + 8191) / 8192,
        0 <= i < pieces(bytes).len() - 1 ==> pieces(bytes)[i].len() == 8192,
        bytes.len() > 0 ==> 1 <= pieces(bytes).last().len() <= 8192,
        bytes.len() == 0 ==> body_pieces(bytes, true) == seq![seq![0u8]],
        bytes.len() > 0 ==> body_pieces(bytes, true).len() == pieces(bytes).len(),
        bytes.len() > 0 ==> body_pieces(bytes, true).last() == pieces(bytes).last().push(0),
        0 <= i < pieces(bytes).len() - 1 ==> body_pieces(bytes, true)[i] == pieces(bytes)[i],
        body_pieces(bytes, false) == pieces(bytes),
{
}

/// What is asked of a header by something that is no object is nothing.
pub proof fn law_header_of_what_is_no_object(meta: Json, size: int)
    requires
        meta !is Object,
    ensures
        typed_header(meta, size) == Json::Object(
            seq![("size"@, Json::Number(signed_decimal(size)))],
        ),
{
    assert(typed_header(meta, size)->Object_0 =~= seq![("size"@, number(size))]);
}

} // verus!
