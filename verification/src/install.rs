//! Deciding where and what to install: folder names derived from download URLs,
//! archive detection, and catalog lookups by name.
use vstd::prelude::*;
use crate::catalog::RemoteMod;
use crate::text::{ascii_lower_char, ascii_lowercase, chars_of, eq_ignore_ascii_case, string_of};

verus! {

pub open spec fn is_query_start(c: char) -> bool {
    c == '?' || c == '#'
}

/// The part of a URL before its query or fragment (before the first `?` or `#`).
pub open spec fn url_path(url: Seq<char>) -> Seq<char>
    decreases url.len(),
{
    if url.len() == 0 {
        url
    } else if is_query_start(url[0]) {
        Seq::empty()
    } else {
        seq![url[0]] + url_path(url.drop_first())
    }
}

/// The text without its trailing slashes.
pub open spec fn trim_end_slashes(s: Seq<char>) -> Seq<char>
    decreases s.len(),
{
    if s.len() > 0 && s.last() == '/' {
        trim_end_slashes(s.drop_last())
    } else {
        s
    }
}

/// What follows the last slash of a text (all of it when it has no slash).
pub open spec fn after_last_slash(s: Seq<char>) -> Seq<char>
    decreases s.len(),
{
    if s.len() == 0 {
        s
    } else if s.last() == '/' {
        Seq::empty()
    } else {
        after_last_slash(s.drop_last()).push(s.last())
    }
}

/// The last non-empty `/`-separated segment of a path (empty when there is none).
pub open spec fn last_segment(path: Seq<char>) -> Seq<char> {
    after_last_slash(trim_end_slashes(path))
}

/// What precedes the last `.` of a text (empty when it has no dot).
pub open spec fn before_last_dot(s: Seq<char>) -> Seq<char>
    decreases s.len(),
{
    if s.len() == 0 {
        s
    } else if s.last() == '.' {
        s.drop_last()
    } else {
        before_last_dot(s.drop_last())
    }
}

/// A file name without its last extension.
pub open spec fn file_stem(name: Seq<char>) -> Seq<char> {
    if name.contains('.') {
        before_last_dot(name)
    } else {
        name
    }
}

pub open spec fn fallback_dir_name() -> Seq<char> {
    seq!['m', 'o', 'd']
}

/// The folder a mod downloaded from `url` is installed into: the last non-empty path
/// segment of the URL (query and fragment left out), without its extension, or
/// `mod` when that comes out empty.
pub open spec fn dir_name_for_url(url: Seq<char>) -> Seq<char> {
    let segment = last_segment(url_path(url));
    let file_name = if segment.len() == 0 { fallback_dir_name() } else { segment };
    let folder = file_stem(file_name);
    if folder.len() == 0 { fallback_dir_name() } else { folder }
}

/// No character of `s` starts a query or a fragment.
pub open spec fn has_no_query_start(s: Seq<char>) -> bool {
    forall|i: int| 0 <= i < s.len() ==> !is_query_start(#[trigger] s[i])
}

proof fn lemma_url_path_append(u: Seq<char>, t: Seq<char>)
    ensures
        has_no_query_start(u) ==> url_path(u + t) == u + url_path(t),
        !has_no_query_start(u) ==> url_path(u + t) == url_path(u),
    decreases u.len(),
{
    if u.len() == 0 {
        assert(u + t =~= t);
        assert(u + url_path(t) =~= url_path(t));
    } else {
        let r = u.drop_first();
        lemma_url_path_append(r, t);
        assert((u + t)[0] == u[0]);
        assert((u + t).drop_first() =~= r + t);
        if is_query_start(u[0]) {
            assert(!has_no_query_start(u));
        } else {
            if has_no_query_start(u) {
                assert(has_no_query_start(r)) by {
                    assert forall|i: int| 0 <= i < r.len() implies !is_query_start(#[trigger] r[i]) by {
                        assert(r[i] == u[i + 1]);
                    }
                }
                assert(seq![u[0]] + (r + url_path(t)) =~= u + url_path(t));
            } else {
                assert(!has_no_query_start(r)) by {
                    let i = choose|i: int| 0 <= i < u.len() && is_query_start(#[trigger] u[i]);
                    assert(i != 0);
                    assert(r[i - 1] == u[i]);
                }
            }
        }
    }
}

/// Text after a `?` or a `#` (a query or a fragment) does not change the folder a
/// download goes to.
pub proof fn lemma_query_does_not_change_dir_name(url: Seq<char>, mark: char, rest: Seq<char>)
    requires
        is_query_start(mark),
        has_no_query_start(url),
    ensures
        dir_name_for_url(url + seq![mark] + rest) == dir_name_for_url(url),
{
    lemma_url_path_append(url, seq![mark] + rest);
    lemma_url_path_append(url, Seq::empty());
    assert(url + seq![mark] + rest =~= url + (seq![mark] + rest));
    assert((seq![mark] + rest)[0] == mark);
    assert(url_path(seq![mark] + rest) =~= Seq::<char>::empty());
    assert(url + Seq::<char>::empty() =~= url);
    assert(url_path(Seq::<char>::empty()) =~= Seq::<char>::empty());
    assert(url_path(url + seq![mark] + rest) =~= url_path(url));
}

/// A trailing `/` does not change the folder a download goes to.
pub proof fn lemma_trailing_slash_does_not_change_dir_name(url: Seq<char>)
    ensures
        dir_name_for_url(url.push('/')) == dir_name_for_url(url),
{
    lemma_url_path_append(url, seq!['/']);
    lemma_url_path_append(url, Seq::empty());
    assert(url.push('/') =~= url + seq!['/']);
    assert(url + Seq::<char>::empty() =~= url);
    assert(url_path(Seq::<char>::empty()) =~= Seq::<char>::empty());
    if has_no_query_start(url) {
        assert(seq!['/'].drop_first() =~= Seq::<char>::empty());
        assert(url_path(seq!['/']) =~= seq!['/']);
        assert(url + seq!['/'] == url.push('/'));
        let p = url_path(url.push('/'));
        assert(p == url.push('/'));
        assert(p.drop_last() =~= url);
        assert(trim_end_slashes(p) == trim_end_slashes(url));
    }
}

fn mod_dir_name() -> (s: String)
    ensures
        s@ == fallback_dir_name(),
{
    let mut s = String::new();
    crate::text::push_char(&mut s, 'm');
    crate::text::push_char(&mut s, 'o');
    crate::text::push_char(&mut s, 'd');
    assert(s@ =~= fallback_dir_name());
    s
}

/// The folder name a mod downloaded from `url` is installed into.
pub fn dir_name_from_url(url: &str) -> (dir: String)
    ensures
        dir@ == dir_name_for_url(url@),
{
    let v = chars_of(url);
    let ghost s = url@;
    // The path ends before the first `?` or `#`.
    let mut p: usize = 0;
    assert(s.skip(0) =~= s);
    assert(s.take(0) =~= Seq::<char>::empty());
    while p < v.len() && v[p] != '?' && v[p] != '#'
        invariant
            v@ == s,
            p <= v.len(),
            url_path(s) == s.take(p as int) + url_path(s.skip(p as int)),
        decreases v.len() - p,
    {
        assert(s.skip(p as int)[0] == s[p as int]);
        assert(s.skip(p as int).drop_first() =~= s.skip(p + 1));
        assert(s.take(p + 1) =~= s.take(p as int) + seq![s[p as int]]);
        p = p + 1;
    }
    proof {
        if p < v.len() {
            assert(s.skip(p as int)[0] == s[p as int]);
        } else {
            assert(s.skip(p as int) =~= Seq::<char>::empty());
        }
        assert(url_path(s) =~= s.take(p as int));
    }
    let ghost path = s.take(p as int);
    // Drop trailing slashes.
    let mut e: usize = p;
    while e > 0 && v[e - 1] == '/'
        invariant
            v@ == s,
            e <= p <= v.len(),
            path == s.take(p as int),
            trim_end_slashes(path) == trim_end_slashes(s.take(e as int)),
        decreases e,
    {
        assert(s.take(e as int).drop_last() =~= s.take(e - 1));
        assert(s.take(e as int).last() == s[e - 1]);
        e = e - 1;
    }
    proof {
        if e > 0 {
            assert(s.take(e as int).last() == s[e - 1]);
        }
    }
    // The segment starts after the last slash before `e`.
    let mut st: usize = e;
    assert(s.subrange(e as int, e as int) =~= Seq::<char>::empty());
    while st > 0 && v[st - 1] != '/'
        invariant
            v@ == s,
            st <= e <= p <= v.len(),
            after_last_slash(s.take(e as int)) == after_last_slash(s.take(st as int)) + s.subrange(st as int, e as int),
        decreases st,
    {
        assert(s.take(st as int).drop_last() =~= s.take(st - 1));
        assert(s.take(st as int).last() == s[st - 1]);
        assert(s.subrange(st - 1, e as int) =~= seq![s[st - 1]] + s.subrange(st as int, e as int));
        assert(after_last_slash(s.take(st as int)) == after_last_slash(s.take(st - 1)).push(s[st - 1]));
        assert(after_last_slash(s.take(st - 1)).push(s[st - 1]) + s.subrange(st as int, e as int)
            =~= after_last_slash(s.take(st - 1)) + s.subrange(st - 1, e as int));
        st = st - 1;
    }
    proof {
        if st > 0 {
            assert(s.take(st as int).last() == s[st - 1]);
        }
        assert(after_last_slash(s.take(st as int)).len() == 0);
        assert(last_segment(path) =~= s.subrange(st as int, e as int));
    }
    if st == e {
        return mod_dir_name();
    }
    // The folder is what precedes the last dot of the segment, when there is one.
    let mut d: usize = e;
    while d > st && v[d - 1] != '.'
        invariant
            v@ == s,
            st <= d <= e <= v.len(),
            before_last_dot(s.subrange(st as int, e as int)) == before_last_dot(s.subrange(st as int, d as int)),
            forall|i: int| d <= i < e ==> s[i] != '.',
        decreases d,
    {
        assert(s.subrange(st as int, d as int).drop_last() =~= s.subrange(st as int, d - 1));
        assert(s.subrange(st as int, d as int).last() == s[d - 1]);
        d = d - 1;
    }
    let ghost seg = s.subrange(st as int, e as int);
    if d == st {
        proof {
            assert forall|i: int| 0 <= i < seg.len() implies seg[i] != '.' by {
                assert(seg[i] == s[st + i]);
            }
            assert(!seg.contains('.'));
        }
        string_of(&v, st, e)
    } else {
        proof {
            assert(s.subrange(st as int, d as int).last() == s[d - 1]);
            assert(s.subrange(st as int, d as int).drop_last() =~= s.subrange(st as int, d - 1));
            assert(seg[d - 1 - st] == '.');
            assert(seg.contains('.'));
        }
        if d - 1 == st {
            mod_dir_name()
        } else {
            string_of(&v, st, d - 1)
        }
    }
}


/// Whether an unpacked archive is moved up one level: it is when the archive held a
/// single entry and that entry is a folder. `entry_is_dir` says, for each entry found
/// after unpacking, whether it is a folder.
pub fn flattens_single_folder(entry_is_dir: &Vec<bool>) -> (res: bool)
    ensures
        res == (entry_is_dir@.len() == 1 && entry_is_dir@[0]),
{
    entry_is_dir.len() == 1 && entry_is_dir[0]
}

#[verifier::external_type_specification]
#[verifier::external_body]
pub struct ExIoError(std::io::Error);

/// What a gzip decoder yields for a byte string: the decompressed bytes, or nothing
/// when the bytes are not a well-formed gzip stream.
pub uninterp spec fn gunzip_of(data: Seq<u8>) -> Option<Seq<u8>>;

/// Decompresses a gzip stream with `flate2::read::GzDecoder`, reading it to the end.
/// Its result is named by `gunzip_of`.
#[verifier::external_body]
fn gunzip(data: &[u8]) -> (res: Result<Vec<u8>, std::io::Error>)
    ensures
        res is Ok <==> gunzip_of(data@) is Some,
        res matches Ok(out) ==> gunzip_of(data@) == Some(out@),
{
    let mut out = Vec::new();
    let mut decoder = flate2::read::GzDecoder::new(std::io::Cursor::new(data));
    match std::io::Read::read_to_end(&mut decoder, &mut out) {
        Ok(_) => Ok(out),
        Err(e) => Err(e),
    }
}

/// Whether a payload starts with the gzip magic bytes.
pub open spec fn is_gzip(data: Seq<u8>) -> bool {
    data.len() >= 2 && data[0] == 0x1f && data[1] == 0x8b
}

/// The catalog bytes carried by a downloaded payload: gzip payloads are
/// decompressed, anything else is taken as it is.
pub fn catalog_payload(data: Vec<u8>) -> (res: Result<Vec<u8>, std::io::Error>)
    ensures
        !is_gzip(data@) ==> (res matches Ok(out) && out@ == data@),
        is_gzip(data@) ==> (res is Ok <==> gunzip_of(data@) is Some),
        is_gzip(data@) ==> (res matches Ok(out) ==> gunzip_of(data@) == Some(out@)),
{
    if data.len() >= 2 && data[0] == 0x1f && data[1] == 0x8b {
        gunzip(data.as_slice())
    } else {
        Ok(data)
    }
}

/// The local file header, end-of-directory and spanning signatures a zip archive
/// may begin with.
pub open spec fn is_zip_signature(magic: Seq<u8>) -> bool {
    &&& magic.len() == 4
    &&& magic[0] == 0x50
    &&& magic[1] == 0x4b
    &&& ((magic[2] == 3 && magic[3] == 4) || (magic[2] == 5 && magic[3] == 6) || (magic[2] == 7 && magic[3] == 8))
}

/// Whether the first bytes read from a file (at most four) mark it as a zip archive.
pub fn looks_like_zip(magic: &[u8]) -> (res: bool)
    ensures
        res == is_zip_signature(magic@),
{
    magic.len() == 4 && magic[0] == 0x50 && magic[1] == 0x4b && ((magic[2] == 3 && magic[3] == 4) || (
    magic[2] == 5 && magic[3] == 6) || (magic[2] == 7 && magic[3] == 8))
}

/// A catalog entry answers to a name given on the command line when its name or its
/// identifier equals it, ignoring ASCII case.
pub open spec fn answers_to(m: RemoteMod, name: Seq<char>) -> bool {
    ascii_lowercase(m.name@) == ascii_lowercase(name) || ascii_lowercase(m.identifier@)
        == ascii_lowercase(name)
}

/// The two texts have the same length and, place by place, the same character once
/// ASCII letters are lowercased.
pub open spec fn same_ignoring_ascii_case(a: Seq<char>, b: Seq<char>) -> bool {
    a.len() == b.len() && forall|i: int| 0 <= i < a.len() ==> ascii_lower_char(#[trigger] a[i]) == ascii_lower_char(b[i])
}

/// An entry answers to a name only by its whole name or its whole identifier, equal
/// to the name up to ASCII case.
pub proof fn lemma_answers_only_to_whole_name(m: RemoteMod, name: Seq<char>)
    requires
        answers_to(m, name),
    ensures
        same_ignoring_ascii_case(m.name@, name) || same_ignoring_ascii_case(m.identifier@, name),
{
    assert(ascii_lowercase(m.name@).len() == m.name@.len());
    assert(ascii_lowercase(m.identifier@).len() == m.identifier@.len());
    assert(ascii_lowercase(name).len() == name.len());
    if ascii_lowercase(m.name@) == ascii_lowercase(name) {
        assert forall|i: int| 0 <= i < m.name@.len() implies ascii_lower_char(#[trigger] m.name@[i]) == ascii_lower_char(name[i]) by {
            assert(ascii_lowercase(m.name@)[i] == ascii_lowercase(name)[i]);
        }
    } else {
        assert forall|i: int| 0 <= i < m.identifier@.len() implies ascii_lower_char(#[trigger] m.identifier@[i]) == ascii_lower_char(name[i]) by {
            assert(ascii_lowercase(m.identifier@)[i] == ascii_lowercase(name)[i]);
        }
    }
}

/// A name that only begins an entry's longer name, and is not its identifier, does
/// not find that entry; an entry whose name or identifier is the name, up to ASCII
/// case, does.
pub proof fn lemma_prefix_does_not_answer(m: RemoteMod, name: Seq<char>)
    ensures
        m.name@.len() != name.len() && !same_ignoring_ascii_case(m.identifier@, name) ==> !answers_to(m, name),
        same_ignoring_ascii_case(m.name@, name) || same_ignoring_ascii_case(m.identifier@, name) ==> answers_to(m, name),
{
    if answers_to(m, name) {
        lemma_answers_only_to_whole_name(m, name);
    }
    if same_ignoring_ascii_case(m.name@, name) {
        assert(ascii_lowercase(m.name@) =~= ascii_lowercase(name));
    } else if same_ignoring_ascii_case(m.identifier@, name) {
        assert(ascii_lowercase(m.identifier@) =~= ascii_lowercase(name));
    }
}

/// The position of the first catalog entry that answers to `name`.
pub fn find_mod_by_name(catalog: &Vec<RemoteMod>, name: &str) -> (res: Option<usize>)
    ensures
        res matches Some(i) ==> i < catalog@.len() && answers_to(catalog@[i as int], name@) && forall|j: int|
            0 <= j < i ==> !answers_to(#[trigger] catalog@[j], name@),
        res is None ==> forall|j: int| 0 <= j < catalog@.len() ==> !answers_to(#[trigger] catalog@[j], name@),
        res matches Some(i) ==> ascii_lowercase(catalog@[i as int].name@) == ascii_lowercase(name@)
            || ascii_lowercase(catalog@[i as int].identifier@) == ascii_lowercase(name@),
        res matches Some(i) ==> catalog@[i as int].name@.len() == name@.len() || catalog@[i as int].identifier@.len()
            == name@.len(),
{
    let mut i: usize = 0;
    while i < catalog.len()
        invariant
            i <= catalog@.len(),
            forall|j: int| 0 <= j < i ==> !answers_to(#[trigger] catalog@[j], name@),
        decreases catalog@.len() - i,
    {
        let m = &catalog[i];
        if eq_ignore_ascii_case(m.name.as_str(), name) || eq_ignore_ascii_case(m.identifier.as_str(), name) {
            proof {
                lemma_answers_only_to_whole_name(catalog@[i as int], name@);
            }
            return Some(i);
        }
        i = i + 1;
    }
    None
}

} // verus!
