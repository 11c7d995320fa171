//! Reading the device's library: what a reply says, which slots are the
//! user's, what their titles are, and which slot is free.
use crate::bundle::{album_config, Upload};
use crate::commands::{album_tree, carries, sub, Cmd04};
use crate::device::AsFrame;
use crate::enumerate::{slot_name, write_slot};
use crate::frame::Message;
use crate::json::{
    as_array, as_str, copy, from_slice, get, items_at, member, parsed, quoted, text_at, tree, trees,
    value_at, Json,
};
use crate::text::{
    chars_of, decimal, joined, law_decimal_reads_back, optional_text, read_unsigned, same_text,
    substring, texts, unsigned_number, uppercase,
};
use serde_json::Value;
use vstd::prelude::*;
use vstd::slice::slice_subrange;
use vstd::utf8::encode_utf8;

verus! {

/// The first slot that is the user's.
pub const FIRST_USER_SLOT: u64 = 5;

/// The last slot that is given to an upload.
pub const LAST_USER_SLOT: u64 = 99;

/// `bytes` without the NULs at its end.
pub open spec fn trim_nul(bytes: Seq<u8>) -> Seq<u8>
    decreases bytes.len(),
{
    if bytes.len() > 0 && bytes.last() == 0 {
        trim_nul(bytes.drop_last())
    } else {
        bytes
    }
}

/// The JSON text in the payload of a response: what stands between the echo of
/// the sub-command and the NULs.
pub open spec fn reply_body(payload: Seq<u8>) -> Seq<u8> {
    trim_nul(
        if payload.len() == 0 {
            payload
        } else {
            payload.drop_first()
        },
    )
}

/// The JSON text in the payload of a response.
pub fn strip_reply<'a>(payload: &'a [u8]) -> (res: &'a [u8])
    ensures
        res@ == reply_body(payload@),
{
    let len: usize = payload.len();
    let start: usize = if len == 0 {
        0
    } else {
        1
    };
    let mut end: usize = len;
    assert(payload@.subrange(start as int, len as int) =~= (if payload@.len() == 0 {
        payload@
    } else {
        payload@.drop_first()
    }));
    while end > start && payload[end - 1] == 0
        invariant
            start <= end <= len,
            len == payload@.len(),
            trim_nul(payload@.subrange(start as int, end as int)) == reply_body(payload@),
        decreases end,
    {
        assert(payload@.subrange(start as int, end as int).drop_last() =~= payload@.subrange(
            start as int,
            end - 1,
        ));
        end = end - 1;
    }
    slice_subrange(payload, start, end)
}

/// Reads the JSON in the payload of a response.
pub fn parse_response_json(payload: &[u8]) -> (res: Result<Value, String>)
    ensures
        match res {
            Ok(v) => parsed(reply_body(payload@)) == Ok::<Json, Seq<char>>(tree(v)),
            Err(e) => parsed(reply_body(payload@)) is Err && e@ == "parse json: "@ + parsed(
                reply_body(payload@),
            )->Err_0,
        },
{
    match from_slice(strip_reply(payload)) {
        Ok(v) => Ok(v),
        Err(e) => Err(joined("parse json: ", e.as_str())),
    }
}

/// An album as the library shows it. `title` and `artist` are there where the
/// album's configuration has readable ones; `tracks` is what the device says.
#[derive(Debug)]
pub struct LibraryAlbum {
    pub id: String,
    pub title: Option<String>,
    pub artist: Option<String>,
    pub tracks: Vec<Value>,
}

/// What an album of the library is.
#[verifier::ext_equal]
pub struct Entry {
    pub id: Seq<char>,
    pub title: Option<Seq<char>>,
    pub artist: Option<Seq<char>>,
    pub tracks: Seq<Json>,
}

impl View for LibraryAlbum {
    type V = Entry;

    open spec fn view(&self) -> Entry {
        Entry {
            id: self.id@,
            title: optional_text(self.title),
            artist: optional_text(self.artist),
            tracks: trees(self.tracks@),
        }
    }
}

/// What each of some albums is.
pub open spec fn entries_of(albums: Seq<LibraryAlbum>) -> Seq<Entry> {
    Seq::new(albums.len(), |i: int| albums[i]@)
}

/// The entry for one album of the device's listing, without its titles.
pub open spec fn listed(album: Json) -> Entry {
    Entry {
        id: match text_at(album, "a"@) {
            Some(id) => id,
            None => "?"@,
        },
        title: None,
        artist: None,
        tracks: match items_at(album, "c"@) {
            Some(tracks) => tracks,
            None => Seq::empty(),
        },
    }
}

fn text_member(v: &Value, key: &str) -> (res: Option<String>)
    ensures
        optional_text(res) == text_at(tree(*v), key@),
{
    match get(v, key) {
        None => None,
        Some(found) => match as_str(found) {
            None => None,
            Some(t) => Some(t.to_owned()),
        },
    }
}

fn array_member<'a>(v: &'a Value, key: &str) -> (res: Option<&'a Vec<Value>>)
    ensures
        match res {
            Some(items) => items_at(tree(*v), key@) == Some(trees(items@)),
            None => items_at(tree(*v), key@) is None,
        },
{
    match get(v, key) {
        None => None,
        Some(found) => as_array(found),
    }
}

fn copy_all(values: &Vec<Value>) -> (res: Vec<Value>)
    ensures
        trees(res@) == trees(values@),
{
    let mut out: Vec<Value> = Vec::new();
    let mut i: usize = 0;
    while i < values.len()
        invariant
            i <= values@.len(),
            out@.len() == i,
            forall|k: int| 0 <= k < i ==> tree(#[trigger] out@[k]) == tree(values@[k]),
        decreases values@.len() - i,
    {
        out.push(copy(&values[i]));
        i = i + 1;
    }
    assert(trees(out@) =~= trees(values@));
    out
}

/// The albums of the device's listing, without their titles.
pub fn listed_albums(listing: &Value) -> (res: Result<Vec<LibraryAlbum>, String>)
    ensures
        match items_at(tree(*listing), "l"@) {
            Some(items) => res is Ok && entries_of(res->Ok_0@) == items.map_values(
                |album: Json| listed(album),
            ),
            None => res is Err && res->Err_0@ == "library payload missing `l` array"@,
        },
        member(tree(*listing), "l"@) matches Some(Json::Array(items)) ==> res is Ok
            && res->Ok_0@.len() == items.len() && forall|i: int|
            0 <= i < items.len() ==> (member(items[i], "c"@) matches Some(Json::Array(tracks))
                ==> trees((#[trigger] res->Ok_0@[i]).tracks@) == tracks),
{
    let items: &Vec<Value> = match array_member(listing, "l") {
        Some(items) => items,
        None => {
            return Err("library payload missing `l` array".to_owned());
        },
    };
    let mut out: Vec<LibraryAlbum> = Vec::new();
    let mut i: usize = 0;
    while i < items.len()
        invariant
            i <= items@.len(),
            out@.len() == i,
            forall|k: int| 0 <= k < i ==> (#[trigger] out@[k])@ == listed(tree(items@[k])),
        decreases items@.len() - i,
    {
        let album: &Value = &items[i];
        let id: String = match text_member(album, "a") {
            Some(id) => id,
            None => "?".to_owned(),
        };
        let tracks: Vec<Value> = match array_member(album, "c") {
            Some(tracks) => copy_all(tracks),
            None => Vec::new(),
        };
        let entry: LibraryAlbum = LibraryAlbum { id, title: None, artist: None, tracks };
        assert(entry@ =~= listed(tree(*album)));
        out.push(entry);
        i = i + 1;
    }
    assert(entries_of(out@) =~= trees(items@).map_values(|album: Json| listed(album)));
    proof {
        assert forall|k: int| 0 <= k < items@.len() implies (member(
            trees(items@)[k],
            "c"@,
        ) matches Some(Json::Array(tracks)) ==> trees((#[trigger] out@[k]).tracks@) == tracks) by {
            law_albums_are_shown_as_listed(trees(items@), out@, k);
        }
    }
    Ok(out)
}

/// Whether the slot is the user's: an `A` and a number from five on. The
/// others are built in.
pub open spec fn is_user_id(id: Seq<char>) -> bool {
    &&& id.len() > 0
    &&& id[0] == 'A'
    &&& unsigned_number(id.drop_first(), 10) is Ok
    &&& unsigned_number(id.drop_first(), 10)->Ok_0 >= FIRST_USER_SLOT
}

/// Whether the slot is the user's.
pub fn is_user_slot(id: &str) -> (res: bool)
    ensures
        res == is_user_id(id@),
{
    let chars: Vec<char> = chars_of(id);
    if chars.len() == 0 || chars[0] != 'A' {
        return false;
    }
    let rest: String = substring(&chars, 1, chars.len());
    assert(rest@ =~= id@.drop_first());
    match read_unsigned(rest.as_str(), 10) {
        Ok(n) => n as u64 >= FIRST_USER_SLOT,
        Err(_) => false,
    }
}

/// A title worth showing: not empty, and not the placeholder that the official
/// client writes.
pub open spec fn shown(t: Option<Seq<char>>) -> Option<Seq<char>> {
    match t {
        Some(t) => if t.len() == 0 || t == "OTHER"@ {
            None
        } else {
            Some(t)
        },
        None => None,
    }
}

fn shown_member(config: &Value, key: &str) -> (res: Option<String>)
    ensures
        optional_text(res) == shown(text_at(tree(*config), key@)),
{
    match text_member(config, key) {
        None => None,
        Some(t) => if t.as_str().is_empty() || same_text(t.as_str(), "OTHER") {
            None
        } else {
            Some(t)
        },
    }
}

/// The title and the artist that an album's configuration shows.
pub fn album_titles(config: &Value) -> (res: (Option<String>, Option<String>))
    ensures
        optional_text(res.0) == shown(text_at(tree(*config), "title"@)),
        optional_text(res.1) == shown(text_at(tree(*config), "artist"@)),
        member(tree(*config), "title"@) matches Some(Json::Text(t)) ==> t.len() > 0 && t
            != "OTHER"@ ==> optional_text(res.0) == Some(t),
        member(tree(*config), "artist"@) matches Some(Json::Text(t)) ==> t.len() > 0 && t
            != "OTHER"@ ==> optional_text(res.1) == Some(t),
{
    (shown_member(config, "title"), shown_member(config, "artist"))
}

/// The title and the artist in the reply to a request for an album's
/// configuration.
pub fn read_album_title(payload: &[u8]) -> (res: Result<(Option<String>, Option<String>), String>)
    ensures
        match parsed(reply_body(payload@)) {
            Ok(config) => {
                &&& res is Ok
                &&& optional_text(res->Ok_0.0) == shown(text_at(config, "title"@))
                &&& optional_text(res->Ok_0.1) == shown(text_at(config, "artist"@))
            },
            Err(e) => res is Err && res->Err_0@ == "parse json: "@ + e,
        },
{
    match parse_response_json(payload) {
        Ok(config) => Ok(album_titles(&config)),
        Err(e) => Err(e),
    }
}

/// An entry once its album's configuration was asked for. Without a reply, or
/// with one that cannot be read, it stays as it is.
pub open spec fn titled(entry: Entry, reply: Option<Seq<u8>>) -> Entry {
    match reply {
        Some(payload) => match parsed(reply_body(payload)) {
            Ok(config) => Entry {
                title: shown(text_at(config, "title"@)),
                artist: shown(text_at(config, "artist"@)),
                ..entry
            },
            Err(_) => entry,
        },
        None => entry,
    }
}

/// The first user's slot among the albums from `from` on; their number where
/// there is none.
pub open spec fn next_user(albums: Seq<Entry>, from: int) -> int
    decreases albums.len() - from,
{
    if from >= albums.len() || is_user_id(albums[from].id) {
        from
    } else {
        next_user(albums, from + 1)
    }
}

/// The reading of a library: the albums, and which one's titles come next.
#[derive(Debug)]
pub struct LibraryScan {
    albums: Vec<LibraryAlbum>,
    next: usize,
}

/// The mathematical state of a reading.
#[verifier::ext_equal]
pub struct Scan {
    pub albums: Seq<Entry>,
    pub next: int,
}

impl Scan {
    /// The reading of these albums before any title.
    pub open spec fn start(albums: Seq<Entry>) -> Scan {
        Scan { albums, next: next_user(albums, 0) }
    }

    /// The reading after a request for titles that had this reply.
    pub open spec fn answered(self, reply: Option<Seq<u8>>) -> Scan {
        Scan {
            albums: self.albums.update(self.next, titled(self.albums[self.next], reply)),
            next: next_user(self.albums, self.next + 1),
        }
    }
}

impl View for LibraryScan {
    type V = Scan;

    closed spec fn view(&self) -> Scan {
        Scan { albums: entries_of(self.albums@), next: self.next as int }
    }
}

fn seek(albums: &Vec<LibraryAlbum>, from: usize) -> (res: usize)
    requires
        from <= albums@.len(),
    ensures
        res == next_user(entries_of(albums@), from as int),
        from <= res <= albums@.len(),
        res < albums@.len() ==> is_user_id(albums@[res as int]@.id),
{
    let mut i: usize = from;
    while i < albums.len() && !is_user_slot(albums[i].id.as_str())
        invariant
            from <= i <= albums@.len(),
            next_user(entries_of(albums@), i as int) == next_user(
                entries_of(albums@),
                from as int,
            ),
        decreases albums@.len() - i,
    {
        i = i + 1;
    }
    i
}

impl LibraryScan {
    /// Whether the state is one that can come about.
    pub closed spec fn wf(&self) -> bool {
        &&& self.next <= self.albums@.len()
        &&& self.next < self.albums@.len() ==> is_user_id(self.albums@[self.next as int]@.id)
    }

    /// Begins a reading with the reply to a request for the device's listing.
    pub fn start(payload: &[u8]) -> (res: Result<LibraryScan, String>)
        ensures
            match parsed(reply_body(payload@)) {
                Ok(listing) => match items_at(listing, "l"@) {
                    Some(items) => res is Ok && res->Ok_0.wf() && res->Ok_0@ == Scan::start(
                        items.map_values(|album: Json| listed(album)),
                    ),
                    None => res is Err && res->Err_0@ == "library payload missing `l` array"@,
                },
                Err(e) => res is Err && res->Err_0@ == "parse json: "@ + e,
            },
    {
        let listing: Value = parse_response_json(payload)?;
        let albums: Vec<LibraryAlbum> = listed_albums(&listing)?;
        let next: usize = seek(&albums, 0);
        Ok(LibraryScan { albums, next })
    }

    /// The request for the next album's titles; none once all are known.
    pub fn request(&self) -> (res: Option<Cmd04>)
        requires
            self.wf(),
        ensures
            self@.next >= self@.albums.len() <==> res is None,
            res is Some ==> res->0.sub == sub::GET_ALBUM_CONFIG && carries(
                res->0.payload@,
                album_tree(self@.albums[self@.next].id),
            ),
            res matches Some(cmd) ==> cmd.message() == (Message {
                op: 0x04,
                payload: seq![0x05u8] + encode_utf8(
                    "{\"album\":"@ + quoted(self@.albums[self@.next].id) + "}"@,
                ).push(0),
            }),
    {
        if self.next < self.albums.len() {
            Cmd04::select_album(self.albums[self.next].id.as_str()).ok()
        } else {
            None
        }
    }

    /// Takes the reply to the request for titles, if there was one.
    pub fn answer(&mut self, reply: Option<&[u8]>)
        requires
            old(self).wf(),
            old(self)@.next < old(self)@.albums.len(),
        ensures
            final(self).wf(),
            final(self)@ == old(self)@.answered(
                match reply {
                    Some(payload) => Some(payload@),
                    None => None,
                },
            ),
    {
        let ghost before = self@;
        let at: usize = self.next;
        let total: usize = self.albums.len();
        assert(at < total);
        let next: usize = seek(&self.albums, at + 1);
        let ghost old_albums = self.albums@;
        if let Some(payload) = reply {
            if let Ok((title, artist)) = read_album_title(payload) {
                let album: LibraryAlbum = self.albums.remove(at);
                self.albums.insert(
                    at,
                    LibraryAlbum { id: album.id, title, artist, tracks: album.tracks },
                );
            }
        }
        self.next = next;
        proof {
            let wanted = before.answered(
                match reply {
                    Some(payload) => Some(payload@),
                    None => None,
                },
            );
            assert(self.albums@.len() == old_albums.len());
            assert forall|i: int| 0 <= i < self.albums@.len() implies (
            #[trigger] self.albums@[i])@ == wanted.albums[i] by {
                if i != at {
                    assert(self.albums@[i] == old_albums[i]);
                }
            }
            assert(self@.albums =~= wanted.albums);
            if next < self.albums@.len() {
                assert(self.albums@[next as int] == old_albums[next as int]);
            }
        }
    }

    /// The albums.
    pub fn finish(self) -> (res: Vec<LibraryAlbum>)
        ensures
            entries_of(res@) == self@.albums,
    {
        self.albums
    }
}

/// The names under which the albums of a listing are known, in order. An album
/// without a name has no place here.
pub open spec fn known_ids(albums: Seq<Json>) -> Seq<Seq<char>>
    decreases albums.len(),
{
    if albums.len() == 0 {
        Seq::empty()
    } else {
        match text_at(albums.last(), "a"@) {
            Some(id) => known_ids(albums.drop_last()).push(id),
            None => known_ids(albums.drop_last()),
        }
    }
}

/// The names of the albums in a listing.
pub fn album_ids(listing: &Value) -> (res: Result<Vec<String>, String>)
    ensures
        match items_at(tree(*listing), "l"@) {
            Some(items) => res is Ok && texts(res->Ok_0@) == known_ids(items),
            None => res is Err && res->Err_0@ == "missing l array"@,
        },
{
    let items: &Vec<Value> = match array_member(listing, "l") {
        Some(items) => items,
        None => {
            return Err("missing l array".to_owned());
        },
    };
    let mut out: Vec<String> = Vec::new();
    let mut i: usize = 0;
    assert(texts(out@) =~= known_ids(trees(items@).take(0)));
    while i < items.len()
        invariant
            i <= items@.len(),
            texts(out@) == known_ids(trees(items@).take(i as int)),
        decreases items@.len() - i,
    {
        let ghost known = out@;
        assert(trees(items@).take(i + 1).drop_last() =~= trees(items@).take(i as int));
        if let Some(id) = text_member(&items[i], "a") {
            out.push(id);
            assert(texts(out@) =~= texts(known).push(id@));
        }
        i = i + 1;
    }
    assert(trees(items@).take(items@.len() as int) =~= trees(items@));
    Ok(out)
}

/// Whether some album of a listing is called so.
pub open spec fn is_called(items: Seq<Json>, id: Seq<char>) -> bool {
    exists|i: int| 0 <= i < items.len() && #[trigger] member(items[i], "a"@) == Some(Json::Text(id))
}

/// Whether the slot of this number is not among the known ones.
pub open spec fn is_free(known: Seq<Seq<char>>, n: nat) -> bool {
    !known.contains(slot_name(n))
}

/// Whether `n` is the lowest free slot for an upload.
pub open spec fn is_lowest_free(known: Seq<Seq<char>>, n: nat) -> bool {
    &&& FIRST_USER_SLOT <= n <= LAST_USER_SLOT
    &&& is_free(known, n)
    &&& forall|m: nat| FIRST_USER_SLOT <= m < n ==> !#[trigger] is_free(known, m)
}

/// Whether no slot for an upload is free.
pub open spec fn is_full(known: Seq<Seq<char>>) -> bool {
    forall|m: nat| FIRST_USER_SLOT <= m <= LAST_USER_SLOT ==> !#[trigger] is_free(known, m)
}

fn holds(list: &Vec<String>, t: &str) -> (res: bool)
    ensures
        res == texts(list@).contains(t@),
{
    let mut i: usize = 0;
    while i < list.len()
        invariant
            i <= list@.len(),
            forall|k: int| 0 <= k < i ==> (#[trigger] list@[k])@ != t@,
        decreases list@.len() - i,
    {
        if same_text(list[i].as_str(), t) {
            assert(texts(list@)[i as int] == t@);
            return true;
        }
        i = i + 1;
    }
    assert forall|k: int| 0 <= k < texts(list@).len() implies texts(list@)[k] != t@ by {
        assert(list@[k]@ != t@);
    }
    false
}

/// The lowest slot for an upload that is not among the known ones. A slot that
/// exists is not taken even where it is empty: a failed upload may have left
/// it unusable.
pub fn lowest_free_slot(known: &Vec<String>) -> (res: Result<String, String>)
    ensures
        match res {
            Ok(slot) => exists|n: nat|
                #[trigger] is_lowest_free(texts(known@), n) && slot@ == slot_name(n),
            Err(e) => is_full(texts(known@)) && e@ == "no free album slot in A5..A99"@,
        },
{
    let mut n: u64 = FIRST_USER_SLOT;
    while n <= LAST_USER_SLOT
        invariant
            FIRST_USER_SLOT <= n <= LAST_USER_SLOT + 1,
            forall|m: nat|
                FIRST_USER_SLOT <= m < n ==> !#[trigger] is_free(texts(known@), m),
        decreases LAST_USER_SLOT + 1 - n,
    {
        let slot: String = write_slot(n);
        if !holds(known, slot.as_str()) {
            assert(is_lowest_free(texts(known@), n as nat));
            return Ok(slot);
        }
        n = n + 1;
    }
    Err("no free album slot in A5..A99".to_owned())
}

/// The slot for a new album, from the reply to a request for the device's
/// listing.
pub fn pick_fresh_album_slot(payload: &[u8]) -> (res: Result<String, String>)
    ensures
        match parsed(reply_body(payload@)) {
            Ok(listing) => match items_at(listing, "l"@) {
                Some(items) => match res {
                    Ok(slot) => exists|n: nat|
                        #[trigger] is_lowest_free(known_ids(items), n) && slot@ == slot_name(n),
                    Err(e) => is_full(known_ids(items)) && e@
                        == "no free album slot in A5..A99"@,
                },
                None => res is Err && res->Err_0@ == "missing l array"@,
            },
            Err(e) => res is Err && res->Err_0@ == "library JSON parse: "@ + e,
        },
        res matches Ok(slot) ==> (parsed(reply_body(payload@)) matches Ok(listing) && member(
            listing,
            "l"@,
        ) matches Some(Json::Array(items)) && (forall|i: int|
            0 <= i < items.len() ==> #[trigger] member(items[i], "a"@) != Some(
                Json::Text(slot@),
            )) && exists|n: nat|
            5 <= n <= 99 && slot@ == "A"@ + #[trigger] decimal(n) && forall|m: nat|
                5 <= m < n ==> is_called(items, "A"@ + #[trigger] decimal(m))),
{
    let listing: Value = match from_slice(strip_reply(payload)) {
        Ok(v) => v,
        Err(e) => {
            return Err(joined("library JSON parse: ", e.as_str()));
        },
    };
    let known: Vec<String> = album_ids(&listing)?;
    let res: Result<String, String> = lowest_free_slot(&known);
    proof {
        if res is Ok {
            let slot = res->Ok_0;
            let items = items_at(tree(listing), "l"@)->0;
            let n = choose|n: nat|
                #[trigger] is_lowest_free(known_ids(items), n) && slot@ == slot_name(n);
            law_picked_slot_is_no_albums(items, n);
            assert(slot@ == "A"@ + decimal(n));
            assert forall|m: nat| 5 <= m < n implies is_called(
                items,
                "A"@ + #[trigger] decimal(m),
            ) by {
                let i = choose|i: int|
                    0 <= i < items.len() && #[trigger] member(items[i], "a"@) == Some(
                        Json::Text("A"@ + decimal(m)),
                    );
                assert(member(items[i], "a"@) == Some(Json::Text("A"@ + decimal(m))));
            }
        }
    }
    res
}

proof fn lemma_trim(body: Seq<u8>, nuls: nat)
    requires
        body.len() > 0 ==> body.last() != 0,
    ensures
        trim_nul(body + Seq::new(nuls, |i: int| 0u8)) == body,
    decreases nuls,
{
    let all = body + Seq::new(nuls, |i: int| 0u8);
    if nuls == 0 {
        assert(all =~= body);
    } else {
        assert(all.drop_last() =~= body + Seq::new((nuls - 1) as nat, |i: int| 0u8));
        lemma_trim(body, (nuls - 1) as nat);
    }
}

/// Whatever the device puts into a response, behind the echo of the sub-command
/// and in front of any number of NULs, is found there, unless it ends in a NUL
/// itself, which JSON text never does.
pub proof fn law_reply_is_found(sub: u8, body: Seq<u8>, nuls: nat)
    requires
        body.len() > 0 ==> body.last() != 0,
    ensures
        reply_body(seq![sub] + body + Seq::new(nuls, |i: int| 0u8)) == body,
{
    let payload = seq![sub] + body + Seq::new(nuls, |i: int| 0u8);
    assert(payload.drop_first() =~= body + Seq::new(nuls, |i: int| 0u8));
    lemma_trim(body, nuls);
}

/// The title and the artist that an upload writes into an album's
/// configuration are those that reading the library shows, unless they are
/// empty or the placeholder. `push_track_bundle` sees to it that the
/// configuration reads back.
pub proof fn law_titles_are_read_back(u: Upload, sub: u8, nuls: nat, entry: Entry)
    requires
        u.reads_back(),
    ensures
        titled(entry, Some(seq![sub] + u.album_body() + Seq::new(nuls, |i: int| 0u8))) == (Entry {
            title: shown(Some(u.album_title)),
            artist: shown(Some(u.artist)),
            ..entry
        }),
{
    let body = u.album_body();
    if body.len() > 0 {
        assert(body[body.len() - 1] != 0);
    }
    law_reply_is_found(sub, body, nuls);
    let config = album_config(uppercase(u.album_id), u.global_id, u.artist, u.album_title);
    reveal_strlit("id");
    reveal_strlit("global_id");
    reveal_strlit("artist");
    reveal_strlit("title");
    assert("id"@.len() == 2 && "global_id"@.len() == 9 && "artist"@.len() == 6 && "title"@.len()
        == 5);
    let m = config->Object_0;
    reveal_with_fuel(value_at, 5);
    let m1 = m.drop_first();
    let m2 = m1.drop_first();
    let m3 = m2.drop_first();
    assert(m1[0] == m[1] && m2[0] == m[2] && m3[0] == m[3]);
    assert(member(config, "title"@) == Some(Json::Text(u.album_title)));
    assert(member(config, "artist"@) == Some(Json::Text(u.artist)));
}

/// The search for the next user's slot passes over none.
pub proof fn law_no_user_slot_is_missed(albums: Seq<Entry>, from: int)
    requires
        0 <= from <= albums.len(),
    ensures
        from <= next_user(albums, from) <= albums.len(),
        forall|i: int|
            from <= i < next_user(albums, from) ==> !is_user_id((#[trigger] albums[i]).id),
        next_user(albums, from) < albums.len() ==> is_user_id(
            albums[next_user(albums, from)].id,
        ),
    decreases albums.len() - from,
{
    if from < albums.len() && !is_user_id(albums[from].id) {
        law_no_user_slot_is_missed(albums, from + 1);
    }
}

/// A reply changes the title and the artist of the album that was asked for
/// and nothing else, and the reading then goes on to a later album.
pub proof fn law_reply_goes_to_its_album(s: Scan, reply: Option<Seq<u8>>)
    requires
        0 <= s.next < s.albums.len(),
    ensures
        s.answered(reply).albums.len() == s.albums.len(),
        forall|i: int|
            0 <= i < s.albums.len() && i != s.next ==> (#[trigger] s.answered(reply).albums[i])
                == s.albums[i],
        s.answered(reply).albums[s.next].id == s.albums[s.next].id,
        s.answered(reply).albums[s.next].tracks == s.albums[s.next].tracks,
        s.next < s.answered(reply).next <= s.albums.len(),
{
    law_no_user_slot_is_missed(s.albums, s.next + 1);
}

/// A reading to its end, where `replies` says what the device answers for the
/// album at each place.
pub open spec fn read_out(s: Scan, replies: spec_fn(int) -> Option<Seq<u8>>) -> Scan
    decreases s.albums.len() - s.next,
    when 0 <= s.next <= s.albums.len()
    via scan_goes_on
{
    if s.next >= s.albums.len() {
        s
    } else {
        read_out(s.answered(replies(s.next)), replies)
    }
}

#[via_fn]
proof fn scan_goes_on(s: Scan, replies: spec_fn(int) -> Option<Seq<u8>>) {
    if s.next < s.albums.len() {
        law_reply_goes_to_its_album(s, replies(s.next));
    }
}

proof fn lemma_read_out(s: Scan, replies: spec_fn(int) -> Option<Seq<u8>>)
    requires
        0 <= s.next <= s.albums.len(),
        s.next < s.albums.len() ==> is_user_id(s.albums[s.next].id),
    ensures
        read_out(s, replies).albums.len() == s.albums.len(),
        forall|i: int|
            0 <= i < s.albums.len() ==> #[trigger] read_out(s, replies).albums[i] == (if i >= s.next
                && is_user_id(s.albums[i].id) {
                titled(s.albums[i], replies(i))
            } else {
                s.albums[i]
            }),
    decreases s.albums.len() - s.next,
{
    if s.next < s.albums.len() {
        let after = s.answered(replies(s.next));
        law_reply_goes_to_its_album(s, replies(s.next));
        law_no_user_slot_is_missed(s.albums, s.next + 1);
        if after.next < after.albums.len() {
            assert(after.albums[after.next] == s.albums[after.next]);
        }
        lemma_read_out(after, replies);
        assert forall|i: int|
            0 <= i < s.albums.len() implies #[trigger] read_out(s, replies).albums[i] == (if i
            >= s.next && is_user_id(s.albums[i].id) {
            titled(s.albums[i], replies(i))
        } else {
            s.albums[i]
        }) by {
            assert(read_out(after, replies).albums[i] == read_out(s, replies).albums[i]);
            if i != s.next {
                assert(after.albums[i] == s.albums[i]);
            }
        }
    }
}

/// A whole reading gives every album of the listing in its place: those in the
/// user's slots with the titles from their own replies, the built-in ones
/// without.
pub proof fn law_whole_library_is_read(
    albums: Seq<Entry>,
    replies: spec_fn(int) -> Option<Seq<u8>>,
)
    ensures
        read_out(Scan::start(albums), replies).albums.len() == albums.len(),
        forall|i: int|
            0 <= i < albums.len() ==> #[trigger] read_out(
                Scan::start(albums),
                replies,
            ).albums[i] == (if is_user_id(albums[i].id) {
                titled(albums[i], replies(i))
            } else {
                albums[i]
            }),
{
    law_no_user_slot_is_missed(albums, 0);
    lemma_read_out(Scan::start(albums), replies);
}

/// The slot picked for an upload is one that the device does not have, and one
/// whose titles are asked for when the library is read.
pub proof fn law_fresh_slot_is_new_and_the_users(known: Seq<Seq<char>>, n: nat)
    requires
        is_lowest_free(known, n),
    ensures
        !known.contains(slot_name(n)),
        is_user_id(slot_name(n)),
{
    law_decimal_reads_back(n);
    reveal_strlit("A");
    assert(slot_name(n).drop_first() =~= decimal(n));
}

/// The built-in slots are not the user's.
pub proof fn law_built_in_slots()
    ensures
        !is_user_id("RECORD"@),
        forall|n: nat| n < FIRST_USER_SLOT ==> !is_user_id(#[trigger] slot_name(n)),
{
    reveal_strlit("RECORD");
    assert("RECORD"@[0] == 'R');
    assert forall|n: nat| n < FIRST_USER_SLOT implies !is_user_id(#[trigger] slot_name(n)) by {
        law_decimal_reads_back(n);
        reveal_strlit("A");
        assert(slot_name(n).drop_first() =~= decimal(n));
    }
}

/// The lowest free slot is one and the same however it is found.
pub proof fn law_one_lowest_slot(known: Seq<Seq<char>>, n: nat, m: nat)
    requires
        is_lowest_free(known, n),
        is_lowest_free(known, m),
    ensures
        n == m,
{
    if n < m {
        assert(!is_free(known, n));
    } else if m < n {
        assert(!is_free(known, m));
    }
}

/// Each album of a listing is shown in its place under the name that it has
/// there, or a question mark, with exactly the tracks that it has there, whatever
/// its name is; its titles are not known yet.
pub proof fn law_albums_are_shown_as_listed(items: Seq<Json>, albums: Seq<LibraryAlbum>, i: int)
    requires
        entries_of(albums) == items.map_values(|album: Json| listed(album)),
        0 <= i < items.len(),
    ensures
        albums.len() == items.len(),
        member(items[i], "c"@) matches Some(Json::Array(tracks)) ==> trees(albums[i].tracks@)
            == tracks,
        !(member(items[i], "c"@) is Some && member(items[i], "c"@)->0 is Array)
            ==> albums[i].tracks@.len() == 0,
        member(items[i], "a"@) matches Some(Json::Text(id)) ==> albums[i].id@ == id,
        !(member(items[i], "a"@) is Some && member(items[i], "a"@)->0 is Text) ==> albums[i].id@
            == "?"@,
        albums[i].title is None,
        albums[i].artist is None,
{
    assert(entries_of(albums).len() == items.len());
    assert(entries_of(albums)[i] == albums[i]@);
    assert(items.map_values(|album: Json| listed(album))[i] == listed(items[i]));
    assert(trees(albums[i].tracks@).len() == albums[i].tracks@.len());
}

/// The same of the entries that a reading begins with.
pub proof fn law_reading_begins_with_the_listing(items: Seq<Json>, i: int)
    requires
        0 <= i < items.len(),
    ensures
        ({
            let albums = Scan::start(items.map_values(|album: Json| listed(album))).albums;
            &&& albums.len() == items.len()
            &&& member(items[i], "c"@) matches Some(Json::Array(tracks)) ==> albums[i].tracks
                == tracks
            &&& !(member(items[i], "c"@) is Some && member(items[i], "c"@)->0 is Array)
                ==> albums[i].tracks.len() == 0
            &&& member(items[i], "a"@) matches Some(Json::Text(id)) ==> albums[i].id == id
            &&& !(member(items[i], "a"@) is Some && member(items[i], "a"@)->0 is Text)
                ==> albums[i].id == "?"@
            &&& albums[i].title is None
            &&& albums[i].artist is None
        }),
{
}

/// The names that a listing knows are the texts under "a" of its albums, each in
/// its turn, whatever else the albums hold.
pub proof fn law_every_name_is_known(items: Seq<Json>, album: Json)
    ensures
        known_ids(Seq::empty()) == Seq::<Seq<char>>::empty(),
        member(album, "a"@) matches Some(Json::Text(id)) ==> known_ids(items.push(album))
            == known_ids(items).push(id),
        !(member(album, "a"@) is Some && member(album, "a"@)->0 is Text) ==> known_ids(
            items.push(album),
        ) == known_ids(items),
{
    assert(items.push(album).drop_last() =~= items);
}

/// A name is among those that a listing knows just where some album has it.
pub proof fn law_known_is_what_some_album_is_called(items: Seq<Json>, id: Seq<char>)
    ensures
        known_ids(items).contains(id) <==> exists|i: int|
            0 <= i < items.len() && #[trigger] member(items[i], "a"@) == Some(Json::Text(id)),
    decreases items.len(),
{
    if items.len() > 0 {
        let front = items.drop_last();
        let before = known_ids(front);
        law_known_is_what_some_album_is_called(front, id);
        let last = items.len() - 1;
        assert(items[last] == items.last());
        if before.contains(id) {
            let i = choose|i: int|
                0 <= i < front.len() && #[trigger] member(front[i], "a"@) == Some(Json::Text(id));
            assert(member(items[i], "a"@) == Some(Json::Text(id)));
            let k = choose|k: int| 0 <= k < before.len() && before[k] == id;
            assert(known_ids(items)[k] == id);
        }
        if member(items[last], "a"@) == Some(Json::Text(id)) {
            assert(known_ids(items)[before.len() as int] == id);
        }
        if known_ids(items).contains(id) && !before.contains(id) {
            let k = choose|k: int| 0 <= k < known_ids(items).len() && known_ids(items)[k] == id;
            if k < before.len() {
                assert(before[k] == id);
            }
            assert(member(items[last], "a"@) == Some(Json::Text(id)));
        }
        if exists|i: int|
            0 <= i < items.len() && #[trigger] member(items[i], "a"@) == Some(Json::Text(id)) {
            let i = choose|i: int|
                0 <= i < items.len() && #[trigger] member(items[i], "a"@) == Some(Json::Text(id));
            if i < last {
                assert(member(front[i], "a"@) == Some(Json::Text(id)));
            }
        }
    }
}

/// The slot picked for an upload is called like no album of the listing, empty
/// or not, and each slot from A5 up to it is called like one.
pub proof fn law_picked_slot_is_no_albums(items: Seq<Json>, n: nat)
    requires
        is_lowest_free(known_ids(items), n),
    ensures
        5 <= n <= 99,
        forall|i: int|
            0 <= i < items.len() ==> #[trigger] member(items[i], "a"@) != Some(
                Json::Text("A"@ + decimal(n)),
            ),
        forall|m: nat|
            5 <= m < n ==> exists|i: int|
                0 <= i < items.len() && #[trigger] member(items[i], "a"@) == Some(
                    Json::Text("A"@ + #[trigger] decimal(m)),
                ),
{
    law_known_is_what_some_album_is_called(items, "A"@ + decimal(n));
    assert forall|m: nat| 5 <= m < n implies exists|i: int|
        0 <= i < items.len() && #[trigger] member(items[i], "a"@) == Some(
            Json::Text("A"@ + #[trigger] decimal(m)),
        ) by {
        assert(!is_free(known_ids(items), m));
        law_known_is_what_some_album_is_called(items, "A"@ + decimal(m));
    }
}

/// Where no slot is picked, each slot from A5 to A99 is called like an album of
/// the listing.
pub proof fn law_no_slot_is_left(items: Seq<Json>, m: nat)
    requires
        is_full(known_ids(items)),
        5 <= m <= 99,
    ensures
        exists|i: int|
            0 <= i < items.len() && #[trigger] member(items[i], "a"@) == Some(
                Json::Text("A"@ + decimal(m)),
            ),
{
    assert(!is_free(known_ids(items), m));
    law_known_is_what_some_album_is_called(items, "A"@ + decimal(m));
}

/// The slots from A5 to A99 are tried in order: the one picked is not known, and
/// those before it are.
pub proof fn law_slots_are_tried_in_order(known: Seq<Seq<char>>, n: nat)
    ensures
        is_lowest_free(known, n) ==> 5 <= n <= 99 && !known.contains("A"@ + decimal(n)),
        is_lowest_free(known, n) ==> forall|m: nat|
            5 <= m < n ==> known.contains("A"@ + #[trigger] decimal(m)),
        is_full(known) ==> forall|m: nat|
            5 <= m <= 99 ==> known.contains("A"@ + #[trigger] decimal(m)),
{
    if is_lowest_free(known, n) {
        assert forall|m: nat| 5 <= m < n implies known.contains("A"@ + #[trigger] decimal(m)) by {
            assert(!is_free(known, m));
        }
    }
    if is_full(known) {
        assert forall|m: nat| 5 <= m <= 99 implies known.contains("A"@ + #[trigger] decimal(m)) by {
            assert(!is_free(known, m));
        }
    }
}

/// A slot is the user's just where an `A` stands in front of a number that is at
/// least five.
pub proof fn law_which_slots_are_the_users(rest: Seq<char>, n: nat, first: char)
    ensures
        is_user_id(seq!['A'] + rest) <==> (unsigned_number(rest, 10) matches Ok(v) && v >= 5),
        n <= u32::MAX ==> (is_user_id("A"@ + decimal(n)) <==> n >= 5),
        first != 'A' ==> !is_user_id(seq![first] + rest),
        !is_user_id(Seq::empty()),
{
    let id = seq!['A'] + rest;
    assert(id.drop_first() =~= rest);
    if n <= u32::MAX {
        law_decimal_reads_back(n);
        reveal_strlit("A");
        assert(("A"@ + decimal(n)).drop_first() =~= decimal(n));
    }
}

/// A title is shown as it is, or not at all: an empty one and the placeholder
/// "OTHER" are not.
pub proof fn law_which_titles_are_shown(t: Seq<char>)
    ensures
        t != Seq::<char>::empty() && t != "OTHER"@ ==> shown(Some(t)) == Some(t),
        shown(Some(Seq::empty())) is None,
        shown(Some("OTHER"@)) is None,
        shown(None) is None,
{
    if t.len() == 0 {
        assert(t =~= Seq::empty());
    }
}

/// What a reply says of an album: the texts under "title" and "artist" of its
/// JSON, each where it is worth showing. The rest of the entry stays.
pub proof fn law_titles_come_from_the_reply(
    entry: Entry,
    sub: u8,
    body: Seq<u8>,
    nuls: nat,
    config: Json,
)
    requires
        body.len() > 0 ==> body.last() != 0,
        parsed(body) == Ok::<Json, Seq<char>>(config),
    ensures
        ({
            let after = titled(entry, Some(seq![sub] + body + Seq::new(nuls, |i: int| 0u8)));
            &&& after.id == entry.id
            &&& after.tracks == entry.tracks
            &&& member(config, "title"@) matches Some(Json::Text(t)) ==> after.title == (if t.len()
                == 0 || t == "OTHER"@ {
                None
            } else {
                Some(t)
            })
            &&& member(config, "artist"@) matches Some(Json::Text(t)) ==> after.artist == (
            if t.len() == 0 || t == "OTHER"@ {
                None
            } else {
                Some(t)
            })
            &&& !(member(config, "title"@) is Some && member(config, "title"@)->0 is Text)
                ==> after.title is None
            &&& !(member(config, "artist"@) is Some && member(config, "artist"@)->0 is Text)
                ==> after.artist is None
        }),
{
    law_reply_is_found(sub, body, nuls);
}

/// Without a reply, or with one that is no JSON, an entry stays as it is.
pub proof fn law_no_titles_without_a_reply(entry: Entry, payload: Seq<u8>)
    ensures
        titled(entry, None) == entry,
        parsed(reply_body(payload)) is Err ==> titled(entry, Some(payload)) == entry,
{
}

/// What stands in a response without NULs at its end is all of it but the first
/// byte.
pub proof fn law_reply_is_what_follows_the_echo(payload: Seq<u8>)
    ensures
        payload.len() > 0 && (payload.len() > 1 ==> payload.last() != 0) ==> reply_body(payload)
            == payload.drop_first(),
        payload.len() == 0 ==> reply_body(payload) == payload,
        payload.len() > 0 ==> reply_body(payload.push(0)) == reply_body(payload),
{
    if payload.len() > 0 {
        assert(payload.push(0).drop_first().drop_last() =~= payload.drop_first());
    }
}

} // verus!
