//! Paths as text, taken the way a Unix system does: joining them, and the name,
//! the stem and the extension of the file they lead to.
use crate::text::{chars_of, joined, optional_text, substring};
use vstd::prelude::*;

verus! {

/// `rel` as seen from `base`. An absolute path stays what it is; otherwise one
/// slash stands between the two, unless `base` ends with one or is empty.
pub open spec fn path_join(base: Seq<char>, rel: Seq<char>) -> Seq<char> {
    if rel.len() > 0 && rel[0] == '/' {
        rel
    } else if base.len() == 0 || base.last() == '/' {
        base + rel
    } else {
        base + "/"@ + rel
    }
}

/// `rel` as seen from `base`.
pub fn join_path(base: &str, rel: &str) -> (res: String)
    ensures
        res@ == path_join(base@, rel@),
{
    let b: Vec<char> = chars_of(base);
    let r: Vec<char> = chars_of(rel);
    if r.len() > 0 && r[0] == '/' {
        rel.to_owned()
    } else if b.len() == 0 || b[b.len() - 1] == '/' {
        joined(base, rel)
    } else {
        let mut out: String = joined(base, "/");
        out.append(rel);
        out
    }
}

/// What stands behind the last slash.
pub open spec fn last_part(path: Seq<char>) -> Seq<char>
    decreases path.len(),
{
    if path.len() == 0 || path.last() == '/' {
        Seq::empty()
    } else {
        last_part(path.drop_last()).push(path.last())
    }
}

/// The name of the file that a path leads to: its last part. Slashes at the
/// end do not count, nor does a part that is a single dot, unless it opens the
/// path. A path that ends by going up has no name.
pub open spec fn name_in(path: Seq<char>) -> Option<Seq<char>>
    decreases path.len(),
{
    let part = last_part(path);
    if path.len() == 0 {
        None
    } else if path.last() == '/' {
        name_in(path.drop_last())
    } else if part == seq!['.'] {
        if path.len() == 1 {
            None
        } else {
            name_in(path.drop_last())
        }
    } else if part == seq!['.', '.'] {
        None
    } else {
        Some(part)
    }
}

/// Where the last dot of a name stands; -1 where there is none.
pub open spec fn last_dot(name: Seq<char>) -> int
    decreases name.len(),
{
    if name.len() == 0 {
        -1
    } else if name.last() == '.' {
        name.len() - 1
    } else {
        last_dot(name.drop_last())
    }
}

/// The stem of the file's name: what stands in front of its last dot. A name
/// without a dot, or with its only dot in front, is all stem.
pub open spec fn stem_in(path: Seq<char>) -> Option<Seq<char>> {
    match name_in(path) {
        Some(name) => Some(
            if last_dot(name) > 0 {
                name.take(last_dot(name))
            } else {
                name
            },
        ),
        None => None,
    }
}

/// The extension of the file's name: what stands behind its last dot, where
/// that dot does not open the name.
pub open spec fn extension_in(path: Seq<char>) -> Option<Seq<char>> {
    match name_in(path) {
        Some(name) => if last_dot(name) > 0 {
            Some(name.skip(last_dot(name) + 1))
        } else {
            None
        },
        None => None,
    }
}

/// Where the last part of `chars[..end]` begins.
fn part_start(chars: &Vec<char>, end: usize) -> (res: usize)
    requires
        end <= chars@.len(),
    ensures
        res <= end,
        last_part(chars@.take(end as int)) == chars@.subrange(res as int, end as int),
{
    let mut start: usize = end;
    let ghost path = chars@.take(end as int);
    assert(last_part(path) =~= last_part(path.take(start as int)) + path.skip(start as int)) by {
        assert(path.take(end as int) =~= path);
        assert(path.skip(end as int) =~= Seq::empty());
    }
    while start > 0 && chars[start - 1] != '/'
        invariant
            start <= end <= chars@.len(),
            path == chars@.take(end as int),
            last_part(path) == last_part(path.take(start as int)) + path.skip(start as int),
        decreases start,
    {
        proof {
            let here = path.take(start as int);
            assert(here.drop_last() =~= path.take(start - 1));
            assert(last_part(here) == last_part(here.drop_last()).push(here.last()));
            assert(last_part(path.take(start - 1)) + path.skip(start - 1) =~= last_part(here)
                + path.skip(start as int));
        }
        start = start - 1;
    }
    proof {
        let here = path.take(start as int);
        assert(last_part(here) =~= Seq::empty());
        assert(path.skip(start as int) =~= chars@.subrange(start as int, end as int));
        assert(last_part(path) =~= path.skip(start as int));
    }
    start
}

/// The name of the file that a path leads to.
pub fn file_name(path: &str) -> (res: Option<String>)
    ensures
        optional_text(res) == name_in(path@),
{
    let chars: Vec<char> = chars_of(path);
    let mut end: usize = chars.len();
    assert(path@.take(end as int) =~= path@);
    while end > 0
        invariant
            chars@ == path@,
            end <= path@.len(),
            name_in(path@) == name_in(path@.take(end as int)),
        decreases end,
    {
        let ghost here = path@.take(end as int);
        assert(here.drop_last() =~= path@.take(end - 1));
        if chars[end - 1] != '/' {
            let start: usize = part_start(&chars, end);
            let ghost part = path@.subrange(start as int, end as int);
            assert(part.len() > 0) by {
                assert(last_part(here).len() > 0);
            }
            if end - start == 1 && chars[start] == '.' {
                assert(part =~= seq!['.']);
                if start == 0 {
                    return None;
                }
            } else if end - start == 2 && chars[start] == '.' && chars[start + 1] == '.' {
                assert(part =~= seq!['.', '.']);
                assert(part.len() != 1);
                return None;
            } else {
                assert(part != seq!['.']) by {
                    if part.len() == 1 {
                        assert(part[0] != '.');
                    }
                }
                assert(part != seq!['.', '.']) by {
                    if part.len() == 2 {
                        assert(part[0] != '.' || part[1] != '.');
                    }
                }
                return Some(substring(&chars, start, end));
            }
        }
        end = end - 1;
    }
    None
}

/// Where the last dot of a name stands, where there is one that does not open
/// it.
fn inner_dot(name: &Vec<char>) -> (res: Option<usize>)
    ensures
        match res {
            Some(at) => 0 < at < name@.len() && at == last_dot(name@),
            None => last_dot(name@) <= 0,
        },
{
    let mut at: usize = name.len();
    assert(name@.take(at as int) =~= name@);
    while at > 0
        invariant
            at <= name@.len(),
            last_dot(name@) == last_dot(name@.take(at as int)),
        decreases at,
    {
        assert(name@.take(at as int).drop_last() =~= name@.take(at - 1));
        if name[at - 1] == '.' {
            return if at > 1 {
                Some(at - 1)
            } else {
                None
            };
        }
        at = at - 1;
    }
    None
}

/// The stem of the name of the file that a path leads to.
pub fn file_stem(path: &str) -> (res: Option<String>)
    ensures
        optional_text(res) == stem_in(path@),
{
    let name: String = match file_name(path) {
        Some(name) => name,
        None => {
            return None;
        },
    };
    let chars: Vec<char> = chars_of(name.as_str());
    match inner_dot(&chars) {
        Some(at) => {
            let stem: String = substring(&chars, 0, at);
            assert(stem@ =~= name@.take(at as int));
            Some(stem)
        },
        None => Some(name),
    }
}

/// The extension of the name of the file that a path leads to.
pub fn extension(path: &str) -> (res: Option<String>)
    ensures
        optional_text(res) == extension_in(path@),
{
    let name: String = match file_name(path) {
        Some(name) => name,
        None => {
            return None;
        },
    };
    let chars: Vec<char> = chars_of(name.as_str());
    match inner_dot(&chars) {
        Some(at) => {
            let total: usize = chars.len();
            assert(at < total);
            let ext: String = substring(&chars, at + 1, total);
            assert(ext@ =~= name@.skip(at + 1));
            Some(ext)
        },
        None => None,
    }
}

/// A stem and an extension make the name again, with a dot between them.
pub proof fn law_stem_and_extension_make_the_name(path: Seq<char>)
    ensures
        name_in(path) is Some <==> stem_in(path) is Some,
        name_in(path) is Some ==> name_in(path)->0 == (match extension_in(path) {
            Some(ext) => stem_in(path)->0 + seq!['.'] + ext,
            None => stem_in(path)->0,
        }),
{
    if name_in(path) is Some {
        let name = name_in(path)->0;
        lemma_last_dot(name);
        if last_dot(name) > 0 {
            let at = last_dot(name);
            assert(name.take(at) + seq!['.'] + name.skip(at + 1) =~= name);
        }
    }
}

proof fn lemma_last_dot(name: Seq<char>)
    ensures
        -1 <= last_dot(name) < name.len(),
        last_dot(name) >= 0 ==> name[last_dot(name)] == '.',
    decreases name.len(),
{
    if name.len() > 0 {
        lemma_last_dot(name.drop_last());
    }
}

/// Some texts with a separator between each two.
pub open spec fn separated(list: Seq<Seq<char>>, sep: Seq<char>) -> Seq<char>
    decreases list.len(),
{
    if list.len() == 0 {
        Seq::empty()
    } else if list.len() == 1 {
        list[0]
    } else {
        separated(list.drop_last(), sep) + sep + list.last()
    }
}

/// Writes some texts with a separator between each two.
pub fn write_separated(list: &Vec<String>, sep: &str) -> (res: String)
    ensures
        res@ == separated(crate::text::texts(list@), sep@),
{
    let mut out: String = String::new();
    let mut i: usize = 0;
    let ghost all = crate::text::texts(list@);
    assert(out@ =~= separated(all.take(0), sep@));
    while i < list.len()
        invariant
            i <= list@.len(),
            all == crate::text::texts(list@),
            out@ == separated(all.take(i as int), sep@),
        decreases list@.len() - i,
    {
        assert(all.take(i + 1).drop_last() =~= all.take(i as int));
        if i > 0 {
            out.append(sep);
        }
        out.append(list[i].as_str());
        assert(out@ =~= separated(all.take(i + 1), sep@));
        i = i + 1;
    }
    assert(all.take(all.len() as int) =~= all);
    out
}

/// Joining two paths puts exactly one slash between them; an absolute path stays
/// what it is, and nothing stands in front of a path that is joined to nothing.
pub proof fn law_join(base: Seq<char>, rel: Seq<char>)
    ensures
        path_join(base, seq!['/'] + rel) == seq!['/'] + rel,
        rel.len() > 0 && rel[0] != '/' ==> path_join(Seq::empty(), rel) == rel,
        rel.len() > 0 && rel[0] != '/' ==> path_join(base + seq!['/'], rel) == base + seq!['/']
            + rel,
        base.len() > 0 && base.last() != '/' && rel.len() > 0 && rel[0] != '/' ==> path_join(
            base,
            rel,
        ) == base + seq!['/'] + rel,
{
    reveal_strlit("/");
    assert("/"@ =~= seq!['/']);
    assert((base + seq!['/']).last() == '/');
    assert(Seq::<char>::empty() + rel =~= rel);
}

/// Whether a text is a name: not empty, without a slash, and neither one dot
/// nor two.
pub open spec fn is_name(t: Seq<char>) -> bool {
    &&& t.len() > 0
    &&& !t.contains('/')
    &&& t != seq!['.']
    &&& t != seq!['.', '.']
}

proof fn lemma_last_part(dir: Seq<char>, name: Seq<char>)
    requires
        !name.contains('/'),
    ensures
        last_part(dir + seq!['/'] + name) == name,
        last_part(name) == name,
    decreases name.len(),
{
    let path = dir + seq!['/'] + name;
    if name.len() > 0 {
        let front = name.drop_last();
        assert forall|i: int| 0 <= i < front.len() implies front[i] != '/' by {
            assert(front[i] == name[i]);
            assert(name.contains(name[i]));
        }
        assert(!front.contains('/'));
        lemma_last_part(dir, front);
        assert(path.drop_last() =~= dir + seq!['/'] + front);
        assert(path.last() == name.last());
        assert(name.contains(name.last()));
        assert(front.push(name.last()) =~= name);
    } else {
        assert(path.last() == '/');
        assert(last_part(path) =~= name);
        assert(last_part(name) =~= name);
    }
}

/// The name that a path leads to is what stands behind its last slash. Slashes
/// at the end do not count, nor does a dot behind a slash; a path that ends by
/// going up has no name, nor has an empty one or a single dot.
pub proof fn law_name_in_a_path(dir: Seq<char>, name: Seq<char>)
    ensures
        is_name(name) ==> name_in(name) == Some(name),
        is_name(name) ==> name_in(dir + seq!['/'] + name) == Some(name),
        name_in(dir.push('/')) == name_in(dir),
        name_in(dir + seq!['/', '.']) == name_in(dir),
        name_in(dir + seq!['/', '.', '.']) is None,
        name_in(Seq::empty()) is None,
        name_in(seq!['.']) is None,
        name_in(seq!['.', '.']) is None,
{
    if is_name(name) {
        lemma_last_part(dir, name);
        assert(name.contains(name.last()));
        let path = dir + seq!['/'] + name;
        assert(path.last() == name.last());
    }
    assert(dir.push('/').drop_last() =~= dir);
    let dot = dir + seq!['/', '.'];
    assert(dot =~= dir + seq!['/'] + seq!['.']);
    lemma_last_part(dir, seq!['.']);
    assert(dot.drop_last() =~= dir.push('/'));
    assert(dot.last() == '.');
    let up = dir + seq!['/', '.', '.'];
    assert(up =~= dir + seq!['/'] + seq!['.', '.']);
    lemma_last_part(dir, seq!['.', '.']);
    assert(up.last() == '.');
    assert(seq!['.', '.'].len() == 2 && seq!['.'].len() == 1);
}

proof fn lemma_where_the_dot_is(front: Seq<char>, ext: Seq<char>)
    requires
        !ext.contains('.'),
    ensures
        last_dot(front + seq!['.'] + ext) == front.len(),
        last_dot(ext) == -1,
    decreases ext.len(),
{
    let name = front + seq!['.'] + ext;
    if ext.len() > 0 {
        let less = ext.drop_last();
        assert forall|i: int| 0 <= i < less.len() implies less[i] != '.' by {
            assert(less[i] == ext[i]);
            assert(ext.contains(ext[i]));
        }
        assert(!less.contains('.'));
        lemma_where_the_dot_is(front, less);
        assert(ext.contains(ext.last()));
        assert(name.last() == ext.last());
        assert(name.drop_last() =~= front + seq!['.'] + less);
    } else {
        assert(name.last() == '.');
    }
}

/// The last dot of a name parts its stem from its extension, unless it opens the
/// name: then there is no extension, as where there is no dot at all.
pub proof fn law_stem_and_extension(path: Seq<char>, front: Seq<char>, ext: Seq<char>)
    requires
        !ext.contains('.'),
    ensures
        front.len() > 0 && name_in(path) == Some(front + seq!['.'] + ext) ==> stem_in(path) == Some(
            front,
        ) && extension_in(path) == Some(ext),
        name_in(path) == Some(seq!['.'] + ext) ==> stem_in(path) == name_in(path) && extension_in(
            path,
        ) is None,
        name_in(path) == Some(ext) ==> stem_in(path) == Some(ext) && extension_in(path) is None,
        name_in(path) is None ==> stem_in(path) is None && extension_in(path) is None,
{
    lemma_where_the_dot_is(front, ext);
    lemma_where_the_dot_is(Seq::empty(), ext);
    assert(Seq::<char>::empty() + seq!['.'] + ext =~= seq!['.'] + ext);
    let name = front + seq!['.'] + ext;
    assert(name.take(front.len() as int) =~= front);
    assert(name.skip(front.len() as int + 1) =~= ext);
}

/// A separator stands between each two of some texts and nowhere else.
pub proof fn law_separated(list: Seq<Seq<char>>, sep: Seq<char>, t: Seq<char>)
    ensures
        separated(Seq::empty(), sep) == Seq::<char>::empty(),
        separated(seq![t], sep) == t,
        list.len() > 0 ==> separated(list.push(t), sep) == separated(list, sep) + sep + t,
{
    assert(list.push(t).drop_last() =~= list);
}

} // verus!
