//! The server's decisions: which path on disk a request names and whether
//! it may touch it, which byte range a read covers, where a write starts,
//! and where a rename moves a file.

use vstd::prelude::*;
use crate::file::write_at;
use crate::text::{
    concat2, concat3, decimal, has_prefix, join_path, join_spec, parse_u64, parse_u64_spec,
    push_char, str_eq, str_has_prefix, u64_to_decimal,
};

verus! {

/// The directory under which the server keeps its files.
pub const ROOT_DIR: &'static str = "/tmp/rfs_storage";

pub open spec fn root_dir_spec() -> Seq<char> {
    seq!['/', 't', 'm', 'p', '/', 'r', 'f', 's', '_', 's', 't', 'o', 'r', 'a', 'g', 'e']
}

/// A request header as the server finds it.
#[derive(Debug)]
pub enum HeaderText {
    /// The request has no such header.
    Missing,
    /// The header holds bytes that are not visible ASCII.
    NotText,
    /// The header's text.
    Text(String),
}

/// Why a `Range` header was refused.
#[derive(Clone, Copy, Debug, PartialEq, Eq, Structural)]
pub enum RangeError {
    /// The header is not text.
    InvalidRange,
    /// The header does not start with `bytes=`.
    InvalidUnit,
    /// The first position is not a number.
    InvalidStart,
}

/// The first index at or after `from` where `s` holds `c`, or its length.
pub open spec fn find_from(s: Seq<char>, c: char, from: int) -> int
    decreases s.len() - from,
{
    if from < 0 || from >= s.len() {
        s.len() as int
    } else if s[from] == c {
        from
    } else {
        find_from(s, c, from + 1)
    }
}

pub open spec fn bytes_unit() -> Seq<char> {
    seq!['b', 'y', 't', 'e', 's', '=']
}

/// The byte range, first and last position included, that a read of a
/// file of `file_size` bytes covers. An empty file reads as `(0, 0)`; no
/// header means the whole file. Otherwise the header must be text starting
/// with `bytes=`; the part up to the first `-` is the first position, and
/// the part after it (up to a further `-`) the last, which defaults to the
/// file's last byte when it is empty or not a number. The last position is
/// at most the file's last byte; the first is not bounded.
pub open spec fn range_spec(h: HeaderText, file_size: u64) -> Result<(u64, u64), RangeError> {
    if file_size == 0 {
        Ok((0, 0))
    } else {
        let last = (file_size - 1) as u64;
        match h {
            HeaderText::Missing => Ok((0, last)),
            HeaderText::NotText => Err(RangeError::InvalidRange),
            HeaderText::Text(s) => if !has_prefix(s@, bytes_unit()) {
                Err(RangeError::InvalidUnit)
            } else {
                let rest = s@.skip(6);
                let i = find_from(rest, '-', 0);
                match parse_u64_spec(rest.take(i)) {
                    None => Err(RangeError::InvalidStart),
                    Some(start) => {
                        let end = if i < rest.len() {
                            let j = find_from(rest, '-', i + 1);
                            let p1 = rest.subrange(i + 1, j);
                            if p1.len() > 0 {
                                match parse_u64_spec(p1) {
                                    Some(e) => e,
                                    None => last,
                                }
                            } else {
                                last
                            }
                        } else {
                            last
                        };
                        Ok((
                            start,
                            if end <= last {
                                end
                            } else {
                                last
                            },
                        ))
                    },
                }
            },
        }
    }
}

proof fn lemma_find_from(s: Seq<char>, c: char, from: int)
    requires
        0 <= from <= s.len(),
    ensures
        from <= find_from(s, c, from) <= s.len(),
        find_from(s, c, from) < s.len() ==> s[find_from(s, c, from)] == c,
        forall|k: int| from <= k < find_from(s, c, from) ==> s[k] != c,
    decreases s.len() - from,
{
    if from < s.len() && s[from] != c {
        lemma_find_from(s, c, from + 1);
    }
}

/// The first index at or after `from` where `s` holds `c`, or its length.
fn find_char_from(s: &str, c: char, from: usize) -> (r: usize)
    requires
        from <= s@.len(),
    ensures
        r == find_from(s@, c, from as int),
{
    let n = s.unicode_len();
    let mut i = from;
    while i < n
        invariant
            from <= i <= n,
            n == s@.len(),
            find_from(s@, c, from as int) == find_from(s@, c, i as int),
        decreases n - i,
    {
        if s.get_char(i) == c {
            return i;
        }
        i = i + 1;
    }
    i
}

/// Parses the `Range` header of a read of a file of `file_size` bytes.
pub fn parse_range(range_header: &HeaderText, file_size: u64) -> (r: Result<(u64, u64), RangeError>)
    ensures
        r == range_spec(*range_header, file_size),
{
    if file_size == 0 {
        return Ok((0, 0));
    }
    let last = file_size - 1;
    let s = match range_header {
        HeaderText::Missing => return Ok((0, last)),
        HeaderText::NotText => return Err(RangeError::InvalidRange),
        HeaderText::Text(s) => s,
    };
    proof {
        reveal_strlit("bytes=");
        assert("bytes="@ =~= bytes_unit());
    }
    if !str_has_prefix(s.as_str(), "bytes=") {
        return Err(RangeError::InvalidUnit);
    }
    let n = s.unicode_len();
    let rest = s.as_str().substring_char(6, n);
    assert(rest@ =~= s@.skip(6));
    let rn = rest.unicode_len();
    let i = find_char_from(rest, '-', 0);
    proof {
        lemma_find_from(rest@, '-', 0);
    }
    let first = rest.substring_char(0, i);
    assert(first@ =~= rest@.take(i as int));
    let start = match parse_u64(first) {
        None => return Err(RangeError::InvalidStart),
        Some(v) => v,
    };
    let end = if i < rn {
        let j = find_char_from(rest, '-', i + 1);
        proof {
            lemma_find_from(rest@, '-', i + 1);
        }
        let second = rest.substring_char(i + 1, j);
        if second.unicode_len() > 0 {
            match parse_u64(second) {
                Some(e) => e,
                None => last,
            }
        } else {
            last
        }
    } else {
        last
    };
    Ok((
        start,
        if end <= last {
            end
        } else {
            last
        },
    ))
}

/// What the server sends back for a read of `start..=end` of a file of
/// `file_size` bytes.
pub struct RangeReply {
    pub start: u64,
    pub end: u64,
    /// How many bytes are sent.
    pub length: u64,
    /// The `Content-Range` header: `bytes START-END/SIZE`.
    pub content_range: String,
}

pub open spec fn content_range_spec(start: u64, end: u64, file_size: u64) -> Seq<char> {
    seq!['b', 'y', 't', 'e', 's', ' '] + decimal(start as nat) + seq!['-'] + decimal(end as nat)
        + seq!['/'] + decimal(file_size as nat)
}

/// The reply to a read of `start..=end` of a file of `file_size` bytes.
pub fn range_reply(start: u64, end: u64, file_size: u64) -> (r: RangeReply)
    requires
        start <= end,
        end - start < u64::MAX,
    ensures
        r.start == start,
        r.end == end,
        r.length == end - start + 1,
        r.content_range@ == content_range_spec(start, end, file_size),
{
    let a = u64_to_decimal(start);
    let b = u64_to_decimal(end);
    let c = u64_to_decimal(file_size);
    let head = concat3("bytes ", a.as_str(), "-");
    let mid = concat3(head.as_str(), b.as_str(), "/");
    let content_range = mid.concat(c.as_str());
    proof {
        reveal_strlit("bytes ");
        reveal_strlit("-");
        reveal_strlit("/");
        assert(content_range@ =~= content_range_spec(start, end, file_size));
    }
    RangeReply { start, end, length: end - start + 1, content_range }
}

/// Where a write starts: the `x-write-offset` header as a number, else 0.
pub open spec fn write_offset_spec(h: HeaderText) -> u64 {
    match h {
        HeaderText::Text(s) => match parse_u64_spec(s@) {
            Some(n) => n,
            None => 0,
        },
        _ => 0,
    }
}

/// Reads the offset of a write from its `x-write-offset` header.
pub fn write_offset(header: &HeaderText) -> (r: u64)
    ensures
        r == write_offset_spec(*header),
{
    match header {
        HeaderText::Text(s) => match parse_u64(s.as_str()) {
            Some(n) => n,
            None => 0,
        },
        _ => 0,
    }
}

/// Whether a write at `offset` replaces the whole file: only a write from
/// the start does; a later one keeps what is there.
pub fn truncates_file(offset: u64) -> (r: bool)
    ensures
        r == (offset == 0),
{
    offset == 0
}

/// The bytes a file holds after the server stores `body` at `offset` into
/// it: a write from the start replaces the file (`truncates_file`); a later
/// one writes over it from `offset` on, a gap past its end reading as zeros.
pub open spec fn stored_after_put(file: Seq<u8>, offset: u64, body: Seq<u8>) -> Seq<u8> {
    if offset == 0 {
        body
    } else {
        write_at(file, offset as int, body)
    }
}

/// What listing a directory does.
#[derive(Clone, Copy, Debug, PartialEq, Eq, Structural)]
pub enum ListDecision {
    NotFound,
    NotADirectory,
    List,
}

/// A missing path is not found, a file is refused, a directory is listed.
pub fn list_decision(exists: bool, is_dir: bool) -> (r: ListDecision)
    ensures
        r == (if !exists {
            ListDecision::NotFound
        } else if !is_dir {
            ListDecision::NotADirectory
        } else {
            ListDecision::List
        }),
{
    if !exists {
        ListDecision::NotFound
    } else if !is_dir {
        ListDecision::NotADirectory
    } else {
        ListDecision::List
    }
}

/// What deleting a path does.
#[derive(Clone, Copy, Debug, PartialEq, Eq, Structural)]
pub enum DeleteAction {
    NotFound,
    /// Remove the directory, which must be empty.
    RemoveDir,
    RemoveFile,
}

/// A missing path is not found; a directory is removed as a directory, anything else as a file.
pub fn delete_action(exists: bool, is_dir: bool) -> (r: DeleteAction)
    ensures
        r == (if !exists {
            DeleteAction::NotFound
        } else if is_dir {
            DeleteAction::RemoveDir
        } else {
            DeleteAction::RemoveFile
        }),
{
    if !exists {
        DeleteAction::NotFound
    } else if is_dir {
        DeleteAction::RemoveDir
    } else {
        DeleteAction::RemoveFile
    }
}

} // verus!

verus! {

/// Whether a piece between separators names something: not empty, not `.`.
pub open spec fn keep_segment(cur: Seq<char>) -> bool {
    cur.len() > 0 && cur != seq!['.']
}

/// Splitting a path left to right: the segments finished so far, and the one being read.
pub open spec fn seg_state(s: Seq<char>) -> (Seq<Seq<char>>, Seq<char>)
    decreases s.len(),
{
    if s.len() == 0 {
        (Seq::<Seq<char>>::empty(), Seq::<char>::empty())
    } else {
        let (done, cur) = seg_state(s.drop_last());
        if s.last() == '/' {
            (
                if keep_segment(cur) {
                    done.push(cur)
                } else {
                    done
                },
                Seq::<char>::empty(),
            )
        } else {
            (done, cur.push(s.last()))
        }
    }
}

/// The names along a path: the pieces between separators, leaving out
/// empty ones and `.`, as `Path::components` reads an absolute path.
pub open spec fn segments(s: Seq<char>) -> Seq<Seq<char>> {
    let (done, cur) = seg_state(s);
    if keep_segment(cur) {
        done.push(cur)
    } else {
        done
    }
}

/// The absolute path through the names `segs`.
pub open spec fn absolute_path(segs: Seq<Seq<char>>) -> Seq<char>
    decreases segs.len(),
{
    if segs.len() == 0 {
        seq!['/']
    } else if segs.len() == 1 {
        seq!['/'] + segs[0]
    } else {
        absolute_path(segs.drop_last()) + seq!['/'] + segs.last()
    }
}

pub open spec fn is_absolute(p: Seq<char>) -> bool {
    p.len() > 0 && p[0] == '/'
}

/// The directory holding the absolute path `p`: `p` without its last
/// name; the root has none.
pub open spec fn parent_spec(p: Seq<char>) -> Option<Seq<char>> {
    let segs = segments(p);
    if segs.len() == 0 {
        None
    } else {
        Some(absolute_path(segs.drop_last()))
    }
}

/// Whether the absolute path `p` lies under `base`, name by name.
pub open spec fn under(p: Seq<char>, base: Seq<char>) -> bool {
    &&& is_absolute(p)
    &&& segments(base).len() <= segments(p).len()
    &&& segments(p).take(segments(base).len() as int) == segments(base)
}

pub open spec fn string_views(v: Seq<String>) -> Seq<Seq<char>> {
    v.map_values(|s: String| s@)
}

fn is_kept(cur: &String) -> (r: bool)
    ensures
        r == keep_segment(cur@),
{
    let n = cur.as_str().unicode_len();
    if n == 0 {
        return false;
    }
    if n == 1 && cur.as_str().get_char(0) == '.' {
        assert(cur@ =~= seq!['.']);
        return false;
    }
    if n == 1 {
        assert(cur@ != seq!['.']) by {
            assert(cur@[0] != '.');
        }
    }
    true
}

/// The names along path `p`.
pub fn path_segments(p: &str) -> (r: Vec<String>)
    ensures
        string_views(r@) == segments(p@),
{
    let n = p.unicode_len();
    let mut done: Vec<String> = Vec::new();
    let mut cur = String::new();
    let mut i: usize = 0;
    while i < n
        invariant
            i <= n,
            n == p@.len(),
            (string_views(done@), cur@) == seg_state(p@.take(i as int)),
        decreases n - i,
    {
        let c = p.get_char(i);
        let ghost pre = p@.take(i as int);
        assert(p@.take(i + 1).drop_last() =~= pre);
        assert(p@.take(i + 1).last() == c);
        if c == '/' {
            if is_kept(&cur) {
                let ghost dv = string_views(done@);
                let ghost cv = cur@;
                done.push(cur);
                assert(string_views(done@) =~= dv.push(cv));
            }
            cur = String::new();
        } else {
            push_char(&mut cur, c);
        }
        i = i + 1;
    }
    assert(p@.take(n as int) =~= p@);
    if is_kept(&cur) {
        let ghost dv = string_views(done@);
        let ghost cv = cur@;
        done.push(cur);
        assert(string_views(done@) =~= dv.push(cv));
    }
    done
}

/// Writes the absolute path through the names `segs[..count]`.
fn absolute_path_of(segs: &Vec<String>, count: usize) -> (r: String)
    requires
        count <= segs@.len(),
    ensures
        r@ == absolute_path(string_views(segs@).take(count as int)),
    decreases count,
{
    let ghost sv = string_views(segs@).take(count as int);
    if count == 0 {
        let r = String::from_str("/");
        proof {
            reveal_strlit("/");
        }
        r
    } else if count == 1 {
        let r = concat2("/", segs[0].as_str());
        proof {
            reveal_strlit("/");
            assert(sv[0] == segs@[0]@);
        }
        r
    } else {
        let head = absolute_path_of(segs, count - 1);
        let r = concat3(head.as_str(), "/", segs[count - 1].as_str());
        proof {
            reveal_strlit("/");
            assert(sv.drop_last() =~= string_views(segs@).take(count - 1));
            assert(sv.last() == segs@[count - 1]@);
        }
        r
    }
}

/// The directory holding the absolute path `p`, if `p` is not the root.
pub fn parent_of(p: &str) -> (r: Option<String>)
    ensures
        match r {
            Some(s) => parent_spec(p@) == Some(s@),
            None => parent_spec(p@) == None::<Seq<char>>,
        },
{
    let segs = path_segments(p);
    let n = segs.len();
    if n == 0 {
        None
    } else {
        let r = absolute_path_of(&segs, n - 1);
        assert(string_views(segs@).take(n - 1) =~= segments(p@).drop_last());
        Some(r)
    }
}

/// Whether the absolute path `p` lies under `base`, name by name.
pub fn is_under(p: &str, base: &str) -> (r: bool)
    ensures
        r == under(p@, base@),
{
    let n = p.unicode_len();
    if n == 0 || p.get_char(0) != '/' {
        return false;
    }
    let ps = path_segments(p);
    let bs = path_segments(base);
    let ghost pv = string_views(ps@);
    let ghost bv = string_views(bs@);
    if bs.len() > ps.len() {
        return false;
    }
    let m = bs.len();
    let mut i: usize = 0;
    while i < m
        invariant
            i <= m,
            m == bs@.len(),
            m <= ps@.len(),
            pv == string_views(ps@),
            bv == string_views(bs@),
            pv == segments(p@),
            bv == segments(base@),
            is_absolute(p@),
            forall|k: int| 0 <= k < i ==> pv[k] == bv[k],
        decreases m - i,
    {
        assert(pv[i as int] == ps@[i as int]@);
        assert(bv[i as int] == bs@[i as int]@);
        if !str_eq(ps[i].as_str(), bs[i].as_str()) {
            assert(pv.take(m as int)[i as int] != bv[i as int]);
            return false;
        }
        i = i + 1;
    }
    assert(pv.take(m as int) =~= bv);
    true
}

/// Whether two paths name the same place as `Path` compares them, by their
/// names: both absolute or both not, and the same names along them (empty
/// names and `.` left out).
pub open spec fn same_path(a: Seq<char>, b: Seq<char>) -> bool {
    is_absolute(a) == is_absolute(b) && segments(a) == segments(b)
}

/// Whether `a` and `b` name the same place, name by name.
pub fn same_path_str(a: &str, b: &str) -> (r: bool)
    ensures
        r == same_path(a@, b@),
{
    let abs_a = a.unicode_len() > 0 && a.get_char(0) == '/';
    let abs_b = b.unicode_len() > 0 && b.get_char(0) == '/';
    assert(abs_a == is_absolute(a@));
    assert(abs_b == is_absolute(b@));
    if abs_a != abs_b {
        return false;
    }
    let sa = path_segments(a);
    let sb = path_segments(b);
    let ghost va = string_views(sa@);
    let ghost vb = string_views(sb@);
    assert(va.len() == sa@.len());
    assert(vb.len() == sb@.len());
    if sa.len() != sb.len() {
        return false;
    }
    let n = sa.len();
    let mut i: usize = 0;
    while i < n
        invariant
            i <= n,
            n == sa@.len(),
            n == sb@.len(),
            va == string_views(sa@),
            vb == string_views(sb@),
            va == segments(a@),
            vb == segments(b@),
            forall|k: int| 0 <= k < i ==> va[k] == vb[k],
        decreases n - i,
    {
        assert(va[i as int] == sa@[i as int]@);
        assert(vb[i as int] == sb@[i as int]@);
        if !str_eq(sa[i].as_str(), sb[i].as_str()) {
            return false;
        }
        i = i + 1;
    }
    assert(va =~= vb);
    true
}

/// The name `..`, which steps up to the parent directory.
pub open spec fn parent_name() -> Seq<char> {
    seq!['.', '.']
}

/// Whether one of the names along `p` is `..`.
pub open spec fn names_parent(p: Seq<char>) -> bool {
    exists|k: int| 0 <= k < segments(p).len() && #[trigger] segments(p)[k] == parent_name()
}

/// Whether one of the names along `p` is `..`.
pub fn has_parent_name(p: &str) -> (r: bool)
    ensures
        r == names_parent(p@),
{
    let segs = path_segments(p);
    let ghost sv = string_views(segs@);
    let dots = "..";
    proof {
        reveal_strlit("..");
        assert(dots@ =~= parent_name());
    }
    let n = segs.len();
    let mut i: usize = 0;
    while i < n
        invariant
            i <= n,
            n == segs@.len(),
            sv == string_views(segs@),
            sv == segments(p@),
            dots@ == parent_name(),
            forall|k: int| 0 <= k < i ==> sv[k] != parent_name(),
        decreases n - i,
    {
        assert(sv[i as int] == segs@[i as int]@);
        if str_eq(segs[i].as_str(), dots) {
            assert(segments(p@)[i as int] == parent_name());
            return true;
        }
        i = i + 1;
    }
    assert forall|k: int| 0 <= k < segments(p@).len() implies #[trigger] segments(p@)[k] != parent_name() by {
        assert(sv[k] != parent_name());
    }
    false
}

/// A name that `segments` can give: not empty, not `.`, without a separator.
pub open spec fn good_name(n: Seq<char>) -> bool {
    keep_segment(n) && forall|k: int| 0 <= k < n.len() ==> n[k] != '/'
}

/// The names `segs` with each `..` stepping back over the name before it
/// (and, at the start, over nothing, as `/..` is `/`).
pub open spec fn resolve_names(segs: Seq<Seq<char>>) -> Seq<Seq<char>>
    decreases segs.len(),
{
    if segs.len() == 0 {
        Seq::<Seq<char>>::empty()
    } else {
        let r = resolve_names(segs.drop_last());
        if segs.last() == parent_name() {
            if r.len() > 0 {
                r.drop_last()
            } else {
                r
            }
        } else {
            r.push(segs.last())
        }
    }
}

/// The absolute path `p` with its `..` names resolved; a path without
/// them is left as it is.
pub open spec fn resolve_parents(p: Seq<char>) -> Seq<char> {
    if names_parent(p) {
        absolute_path(resolve_names(segments(p)))
    } else {
        p
    }
}

proof fn lemma_seg_state_names(s: Seq<char>)
    ensures
        forall|k: int| 0 <= k < seg_state(s).0.len() ==> good_name(#[trigger] seg_state(s).0[k]),
        forall|k: int| 0 <= k < seg_state(s).1.len() ==> #[trigger] seg_state(s).1[k] != '/',
    decreases s.len(),
{
    if s.len() > 0 {
        let t = s.drop_last();
        lemma_seg_state_names(t);
        let done = seg_state(t).0;
        let cur = seg_state(t).1;
        if s.last() == '/' {
            if keep_segment(cur) {
                assert(good_name(cur));
                let d2 = done.push(cur);
                assert(seg_state(s).0 == d2);
                assert forall|k: int| 0 <= k < d2.len() implies good_name(#[trigger] d2[k]) by {
                    if k < done.len() {
                        assert(d2[k] == done[k]);
                    }
                }
            } else {
                assert(seg_state(s).0 == done);
            }
            assert(seg_state(s).1.len() == 0);
        } else {
            let c2 = cur.push(s.last());
            assert(seg_state(s) == (done, c2));
            assert forall|k: int| 0 <= k < c2.len() implies #[trigger] c2[k] != '/' by {
                if k < cur.len() {
                    assert(c2[k] == cur[k]);
                }
            }
        }
    }
}

proof fn lemma_segments_names(p: Seq<char>)
    ensures
        forall|k: int| 0 <= k < segments(p).len() ==> good_name(#[trigger] segments(p)[k]),
{
    lemma_seg_state_names(p);
}

proof fn lemma_seg_state_append(x: Seq<char>, n: Seq<char>)
    requires
        forall|k: int| 0 <= k < n.len() ==> n[k] != '/',
    ensures
        seg_state(x + n) == (seg_state(x).0, seg_state(x).1 + n),
    decreases n.len(),
{
    if n.len() == 0 {
        assert(x + n =~= x);
        assert(seg_state(x).1 + n =~= seg_state(x).1);
    } else {
        let m = n.drop_last();
        lemma_seg_state_append(x, m);
        assert((x + n).drop_last() =~= x + m);
        assert((x + n).last() == n.last());
        assert((seg_state(x).1 + m).push(n.last()) =~= seg_state(x).1 + n);
    }
}

proof fn lemma_segments_push_name(x: Seq<char>, n: Seq<char>)
    requires
        good_name(n),
    ensures
        segments(x + seq!['/'] + n) == segments(x).push(n),
{
    let y = x + seq!['/'];
    assert(y.drop_last() =~= x);
    assert(seg_state(y) == (segments(x), Seq::<char>::empty()));
    lemma_seg_state_append(y, n);
    assert(Seq::<char>::empty() + n =~= n);
}

proof fn lemma_segments_of_absolute(ns: Seq<Seq<char>>)
    requires
        forall|k: int| 0 <= k < ns.len() ==> good_name(#[trigger] ns[k]),
    ensures
        segments(absolute_path(ns)) == ns,
        is_absolute(absolute_path(ns)),
    decreases ns.len(),
{
    if ns.len() == 0 {
        let e = Seq::<char>::empty();
        let sl = seq!['/'];
        assert(sl.drop_last() =~= e);
        assert(sl.last() == '/');
        assert(!keep_segment(e));
        assert(seg_state(e) == (Seq::<Seq<char>>::empty(), e));
        assert(seg_state(sl) == (Seq::<Seq<char>>::empty(), e));
        assert(segments(sl) =~= Seq::<Seq<char>>::empty());
    } else if ns.len() == 1 {
        let e = Seq::<char>::empty();
        lemma_segments_push_name(e, ns[0]);
        assert(e + seq!['/'] + ns[0] =~= seq!['/'] + ns[0]);
        assert(segments(e) =~= Seq::<Seq<char>>::empty());
        assert(Seq::<Seq<char>>::empty().push(ns[0]) =~= ns);
    } else {
        let d = ns.drop_last();
        lemma_segments_of_absolute(d);
        lemma_segments_push_name(absolute_path(d), ns.last());
        assert(d.push(ns.last()) =~= ns);
    }
}

proof fn lemma_resolve_names(segs: Seq<Seq<char>>)
    requires
        forall|k: int| 0 <= k < segs.len() ==> good_name(#[trigger] segs[k]),
    ensures
        forall|k: int| 0 <= k < resolve_names(segs).len() ==> good_name(#[trigger] resolve_names(segs)[k])
            && resolve_names(segs)[k] != parent_name(),
    decreases segs.len(),
{
    if segs.len() > 0 {
        let d = segs.drop_last();
        assert forall|k: int| 0 <= k < d.len() implies good_name(#[trigger] d[k]) by {
            assert(d[k] == segs[k]);
        }
        lemma_resolve_names(d);
        let r = resolve_names(d);
        let l = segs.last();
        assert(good_name(l));
        if l == parent_name() {
            if r.len() > 0 {
                let r2 = r.drop_last();
                assert forall|k: int| 0 <= k < r2.len() implies good_name(#[trigger] r2[k]) && r2[k]
                    != parent_name() by {
                    assert(r2[k] == r[k]);
                }
            }
        } else {
            let r2 = r.push(l);
            assert forall|k: int| 0 <= k < r2.len() implies good_name(#[trigger] r2[k]) && r2[k]
                != parent_name() by {
                if k < r.len() {
                    assert(r2[k] == r[k]);
                }
            }
        }
    }
}

/// A path with its `..` names resolved has none left.
proof fn lemma_resolved_has_no_parent(p: Seq<char>)
    ensures
        !names_parent(resolve_parents(p)),
{
    if names_parent(p) {
        lemma_segments_names(p);
        let r = resolve_names(segments(p));
        lemma_resolve_names(segments(p));
        lemma_segments_of_absolute(r);
    }
}

/// The path `p` with its `..` names resolved.
pub fn resolve_parent_names(p: &str) -> (r: String)
    ensures
        r@ == resolve_parents(p@),
{
    if !has_parent_name(p) {
        return String::from_str(p);
    }
    let segs = path_segments(p);
    let ghost sv = string_views(segs@);
    let dots = "..";
    proof {
        reveal_strlit("..");
        assert(dots@ =~= parent_name());
    }
    let n = segs.len();
    let mut out: Vec<String> = Vec::new();
    let mut i: usize = 0;
    while i < n
        invariant
            i <= n,
            n == segs@.len(),
            sv == string_views(segs@),
            dots@ == parent_name(),
            string_views(out@) == resolve_names(sv.take(i as int)),
        decreases n - i,
    {
        assert(sv[i as int] == segs@[i as int]@);
        assert(sv.take(i + 1).drop_last() =~= sv.take(i as int));
        assert(sv.take(i + 1).last() == sv[i as int]);
        let ghost before = string_views(out@);
        if str_eq(segs[i].as_str(), dots) {
            if out.len() > 0 {
                out.pop();
                assert(string_views(out@) =~= before.drop_last());
            }
        } else {
            out.push(segs[i].clone());
            assert(string_views(out@) =~= before.push(sv[i as int]));
        }
        i = i + 1;
    }
    assert(sv.take(n as int) =~= sv);
    let m = out.len();
    let r = absolute_path_of(&out, m);
    assert(string_views(out@).take(m as int) =~= string_views(out@));
    r
}

/// The request methods the server tells apart.
#[derive(Clone, Copy, Debug, PartialEq, Eq, Structural)]
pub enum Method {
    Get,
    Put,
    Post,
    Delete,
    Patch,
    Other,
}

/// The path that a request for `relative` must find on disk: for a
/// creation (`PUT`, `POST`) the directory it goes into, else the path itself.
pub open spec fn path_to_verify_spec(method: Method, relative: Seq<char>) -> Seq<char> {
    let full = join_spec(root_dir_spec(), relative);
    match method {
        Method::Post | Method::Put => match parent_spec(full) {
            Some(p) => p,
            None => root_dir_spec(),
        },
        _ => full,
    }
}

/// The path that must exist for a request for `relative`.
pub fn path_to_verify(method: Method, relative: &str) -> (r: String)
    ensures
        r@ == path_to_verify_spec(method, relative@),
{
    proof {
        reveal_strlit("/tmp/rfs_storage");
        assert(ROOT_DIR@ =~= root_dir_spec());
    }
    let full = join_path(ROOT_DIR, relative);
    match method {
        Method::Post | Method::Put => match parent_of(full.as_str()) {
            Some(p) => p,
            None => String::from_str(ROOT_DIR),
        },
        _ => full,
    }
}

/// A path on disk under the server's root, named by a request.
pub struct SafePath(String);

impl SafePath {
    #[verifier::type_invariant]
    spec fn contained(self) -> bool {
        under(self.0@, root_dir_spec()) && !names_parent(self.0@)
    }

    pub closed spec fn path(self) -> Seq<char> {
        self.0@
    }

    /// The path, borrowed: under the root, with no `..` among its names.
    pub fn path_str(&self) -> (r: &str)
        ensures
            r@ == self.path(),
            under(r@, root_dir_spec()),
            !names_parent(r@),
    {
        proof {
            use_type_invariant(self);
        }
        self.0.as_str()
    }

    /// The path: under the root, with no `..` among its names.
    pub fn into_inner(self) -> (r: String)
        ensures
            r@ == self.path(),
            under(r@, root_dir_spec()),
            !names_parent(r@),
    {
        proof {
            use_type_invariant(&self);
        }
        self.0
    }
}

/// Why a request's path was refused.
#[derive(Debug)]
pub enum SafePathError {
    /// The path that had to exist does not.
    NotFound(String),
    /// The path lies outside the server's root, or steps up through `..`.
    Traversal,
}

/// Checks the path a request names by `relative` (its part after the route),
/// given whether `path_to_verify` exists. `GET`, `DELETE` and `PATCH` need
/// it to exist; then the path joined onto the root, with its `..` names
/// resolved, must still lie under the root, name by name.
pub fn resolve_safe_path(method: Method, relative: &str, verified_exists: bool) -> (r: Result<SafePath, SafePathError>)
    ensures
        match r {
            Ok(sp) => {
                &&& verified_exists || !(method == Method::Get || method == Method::Delete || method
                    == Method::Patch)
                &&& sp.path() == resolve_parents(join_spec(root_dir_spec(), relative@))
                &&& under(sp.path(), root_dir_spec())
                &&& !names_parent(sp.path())
            },
            Err(SafePathError::NotFound(p)) => {
                &&& !verified_exists
                &&& (method == Method::Get || method == Method::Delete || method == Method::Patch)
                &&& p@ == path_to_verify_spec(method, relative@)
            },
            Err(SafePathError::Traversal) => {
                &&& (verified_exists || !(method == Method::Get || method == Method::Delete
                    || method == Method::Patch))
                &&& !under(resolve_parents(join_spec(root_dir_spec(), relative@)), root_dir_spec())
            },
        },
{
    proof {
        reveal_strlit("/tmp/rfs_storage");
        assert(ROOT_DIR@ =~= root_dir_spec());
    }
    if !verified_exists {
        match method {
            Method::Get | Method::Delete | Method::Patch => {
                return Err(SafePathError::NotFound(path_to_verify(method, relative)));
            },
            _ => {},
        }
    }
    let joined = join_path(ROOT_DIR, relative);
    let final_path = resolve_parent_names(joined.as_str());
    if !is_under(final_path.as_str(), ROOT_DIR) {
        return Err(SafePathError::Traversal);
    }
    proof {
        lemma_resolved_has_no_parent(joined@);
    }
    Ok(SafePath(final_path))
}

/// The body of a rename request.
#[derive(Debug)]
pub struct RenameRequest {
    pub new_name: String,
}

/// Why a rename was refused.
#[derive(Clone, Copy, Debug, PartialEq, Eq, Structural)]
pub enum RenameError {
    /// The path has no parent directory.
    InvalidPath,
    /// The destination, its `..` names resolved, leaves the root.
    Traversal,
}

/// `s` without the separators it starts with.
pub open spec fn trim_leading_slashes(s: Seq<char>) -> Seq<char>
    decreases s.len(),
{
    if s.len() > 0 && s[0] == '/' {
        trim_leading_slashes(s.drop_first())
    } else {
        s
    }
}

/// Where a rename of `full_path` to `new_name` moves it: a name starting
/// with `/` is a path from the storage root; any other name stays in the
/// same directory. A destination with `..` among its names is resolved, and
/// refused when it then leaves the storage root (for a move) or the
/// server's root (for a rename in place).
pub open spec fn rename_target_spec(full_path: Seq<char>, new_name: Seq<char>, storage_root: Seq<char>) -> Result<Seq<char>, RenameError> {
    let t = if new_name.len() > 0 && new_name[0] == '/' {
        Ok(join_spec(storage_root, trim_leading_slashes(new_name)))
    } else {
        match parent_spec(full_path) {
            Some(p) => Ok(join_spec(p, new_name)),
            None => Err(RenameError::InvalidPath),
        }
    };
    let base = if new_name.len() > 0 && new_name[0] == '/' {
        storage_root
    } else {
        root_dir_spec()
    };
    match t {
        Ok(p) => if names_parent(p) && !under(resolve_parents(p), base) {
            Err(RenameError::Traversal)
        } else {
            Ok(resolve_parents(p))
        },
        Err(e) => Err(e),
    }
}

fn trim_leading(s: &str) -> (r: &str)
    ensures
        r@ == trim_leading_slashes(s@),
{
    let n = s.unicode_len();
    let mut i: usize = 0;
    assert(s@.skip(0) =~= s@);
    while i < n && s.get_char(i) == '/'
        invariant
            i <= n,
            n == s@.len(),
            trim_leading_slashes(s@) == trim_leading_slashes(s@.skip(i as int)),
        decreases n - i,
    {
        assert(s@.skip(i as int).drop_first() =~= s@.skip(i + 1));
        i = i + 1;
    }
    let r = s.substring_char(i, n);
    assert(r@ =~= s@.skip(i as int));
    r
}

/// The path a rename of `path` to `new_name` moves it to.
pub fn rename_target(path: &SafePath, new_name: &str, storage_root: &str) -> (r: Result<String, RenameError>)
    ensures
        match r {
            Ok(t) => rename_target_spec(path.path(), new_name@, storage_root@) == Ok::<
                Seq<char>,
                RenameError,
            >(t@),
            Err(e) => rename_target_spec(path.path(), new_name@, storage_root@) == Err::<
                Seq<char>,
                RenameError,
            >(e),
        },
{
    proof {
        reveal_strlit("/tmp/rfs_storage");
        assert(ROOT_DIR@ =~= root_dir_spec());
    }
    let n = new_name.unicode_len();
    let is_move = n > 0 && new_name.get_char(0) == '/';
    let t = if is_move {
        let rel = trim_leading(new_name);
        join_path(storage_root, rel)
    } else {
        match parent_of(path.0.as_str()) {
            Some(p) => join_path(p.as_str(), new_name),
            None => return Err(RenameError::InvalidPath),
        }
    };
    if !has_parent_name(t.as_str()) {
        return Ok(t);
    }
    let q = resolve_parent_names(t.as_str());
    let base = if is_move {
        storage_root
    } else {
        ROOT_DIR
    };
    if is_under(q.as_str(), base) {
        Ok(q)
    } else {
        Err(RenameError::Traversal)
    }
}

} // verus!
