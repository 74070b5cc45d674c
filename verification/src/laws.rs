//! Properties that relate the library's operations to one another.

use vstd::prelude::*;
use crate::api::range_header_spec;
use crate::cache::{Cache, cached_view, put_all};
use crate::entry::{FileEntry, Timestamp, is_fresh};
use crate::file::{read_at, set_len, write_at, zeros};
use crate::file::RfsFile;
use crate::cache::{find_path, file_path_is};
use crate::entry::CachedFileView;
use crate::fs::{
    PREFETCH_SIZE, ReadStepView, RemoteFs, changed_from, open_read, read_plan, size_after_change,
    upload_body,
};
use crate::seq_util::{first_index, lemma_first_index};
use crate::lru_store::{
    keys_distinct, lemma_key_pos, lemma_key_pos_at, lemma_promote_shape, lemma_put_shape, lru_find,
    lru_promote, lru_put,
};
use crate::server::{
    HeaderText, find_from, is_absolute, range_spec, same_path, segments, stored_after_put,
    write_offset_spec,
};
use crate::text::{decimal, lemma_parse_decimal_roundtrip};

verus! {

/// Reading back the range just written gives the bytes written.
pub proof fn law_read_after_write(buf: Seq<u8>, off: int, data: Seq<u8>)
    requires
        0 <= off,
    ensures
        read_at(write_at(buf, off, data), off, data.len() as int) == data,
{
    let w = write_at(buf, off, data);
    if data.len() == 0 {
        if off < buf.len() {
            assert(buf.subrange(off, off) =~= data);
        }
    } else {
        assert(w.subrange(off, off + data.len()) =~= data);
    }
}

/// On an open file, a read of the range that a successful write covered,
/// before anything else changes the file, gives back the bytes written.
pub proof fn law_read_back_written(before: RemoteFs, after: RemoteFs, ino: u64, offset: i64, data: Seq<u8>)
    requires
        before.rfs_files@.contains_key(ino),
        after.rfs_files@.contains_key(ino),
        0 <= offset,
        data.len() <= u32::MAX,
        after.rfs_files@[ino].is_dirty,
        after.rfs_files@[ino].write_buffer@ == write_at(
            before.rfs_files@[ino].write_buffer@,
            (offset as u64) as int,
            data,
        ),
    ensures
        open_read(after.rfs_files@[ino], offset, data.len() as u32) == ReadStepView::Data(data),
{
    law_read_after_write(before.rfs_files@[ino].write_buffer@, offset as int, data);
}

/// On an open file with no unsent changes and an empty buffer (just opened,
/// or just flushed), one write of `data` at `off` followed by the upload
/// that `flush_start` plans leaves on the server: for a write past the
/// start, the file as it was with `data` written in at `off` (the bytes
/// before `off` and after the data stay); for a write from the start, which
/// the server takes as a replacement, just `data`, which is the old file
/// with `data` written in whenever the data covers the old file.
pub proof fn law_flush_writes_in(server: Seq<u8>, before: RfsFile, after: RfsFile, off: u64, data: Seq<u8>)
    requires
        !before.is_dirty,
        before.write_buffer@ == Seq::<u8>::empty(),
        data.len() > 0,
        after.write_buffer@ == write_at(before.write_buffer@, off as int, data),
        after.write_offset == changed_from(before, off),
    ensures
        stored_after_put(server, after.write_offset, upload_body(after)) == (if off > 0 {
            write_at(server, off as int, data)
        } else {
            data
        }),
        off > 0 || data.len() >= server.len() ==> stored_after_put(
            server,
            after.write_offset,
            upload_body(after),
        ) == write_at(server, off as int, data),
{
    let buf = after.write_buffer@;
    assert(buf =~= zeros(off as nat) + data);
    assert(upload_body(after) =~= data);
    if off == 0 && data.len() >= server.len() {
        assert(write_at(server, 0, data) =~= data);
    }
}

/// The server's copy after an upload holds, at every position from where
/// the changes begin up to the end of the buffer, the buffer's byte.
proof fn lemma_upload_holds_buffer(server: Seq<u8>, f: RfsFile, a: int, n: int)
    requires
        f.write_offset <= a,
        0 < n,
        a + n <= f.write_buffer@.len(),
    ensures
        ({
            let stored = stored_after_put(server, f.write_offset, upload_body(f));
            &&& stored.len() >= a + n
            &&& stored.subrange(a, a + n) == f.write_buffer@.subrange(a, a + n)
        }),
{
    let w = f.write_buffer@;
    let o = f.write_offset as int;
    let body = upload_body(f);
    assert(body =~= w.skip(o));
    let stored = stored_after_put(server, f.write_offset, body);
    if o == 0 {
        assert(stored =~= w);
    } else {
        assert(stored.len() >= o + body.len());
        assert forall|k: int| a <= k < a + n implies #[trigger] stored[k] == w[k] by {
            assert(stored[k] == body[k - o]);
        }
    }
    assert(stored.subrange(a, a + n) =~= w.subrange(a, a + n));
}

/// Reading back what a write put there, across a flush: after a write of
/// `data` at `off` to an open file in any state (whatever earlier writes
/// left in its buffer), the upload that `flush_start` then plans, and a
/// successful flush (`flush_done`, which leaves the file without unsent
/// changes and with its buffers emptied), a read of the range written is
/// not served from memory but fetched from the server, and the reply
/// `read_fetched` gives from what the server then sends is `data`.
pub proof fn law_read_after_flush(
    server: Seq<u8>,
    before: RfsFile,
    after: RfsFile,
    flushed: RfsFile,
    off: u64,
    data: Seq<u8>,
)
    requires
        data.len() > 0,
        after.write_buffer@ == write_at(before.write_buffer@, off as int, data),
        after.write_offset == changed_from(before, off),
        off <= i64::MAX,
        data.len() <= u32::MAX,
        !flushed.is_dirty,
        flushed.read_buffer@ == Seq::<u8>::empty(),
    ensures
        ({
            let n = data.len() as u32;
            let fetch = if n >= PREFETCH_SIZE {
                n
            } else {
                PREFETCH_SIZE
            };
            let stored = stored_after_put(server, after.write_offset, upload_body(after));
            let sent = read_at(stored, off as int, fetch as int);
            &&& open_read(flushed, off as i64, n) == ReadStepView::Fetch(flushed.file_path@, off, fetch)
            &&& (if n <= sent.len() {
                sent.subrange(0, n as int)
            } else {
                sent
            }) == data
        }),
{
    let n = data.len() as u32;
    let fetch = if n >= PREFETCH_SIZE {
        n
    } else {
        PREFETCH_SIZE
    };
    let w = after.write_buffer@;
    law_read_after_write(before.write_buffer@, off as int, data);
    assert(w.len() >= off + data.len());
    assert(w.subrange(off as int, off + data.len()) =~= data);
    lemma_upload_holds_buffer(server, after, off as int, data.len() as int);
    let stored = stored_after_put(server, after.write_offset, upload_body(after));
    let sent = read_at(stored, off as int, fetch as int);
    assert(sent.len() >= n);
    assert forall|k: int| 0 <= k < n implies #[trigger] sent[k] == data[k] by {
        assert(sent[k] == stored[off + k]);
        assert(stored.subrange(off as int, off + data.len())[k] == stored[off + k]);
    }
    assert(sent.subrange(0, n as int) =~= data);
}

/// A write changes only the bytes it covers: those before it stay, those
/// after it stay, and a gap between the old end and the write reads as zeros.
pub proof fn law_write_keeps_other_bytes(buf: Seq<u8>, off: int, data: Seq<u8>)
    requires
        0 <= off,
        data.len() > 0,
    ensures
        write_at(buf, off, data).len() == if off + data.len() > buf.len() {
            off + data.len()
        } else {
            buf.len() as int
        },
        forall|k: int| 0 <= k < off && k < buf.len() ==> #[trigger] write_at(buf, off, data)[k] == buf[k],
        forall|k: int| buf.len() <= k < off ==> #[trigger] write_at(buf, off, data)[k] == 0,
        forall|k: int| off + data.len() <= k < buf.len() ==> #[trigger] write_at(buf, off, data)[k] == buf[k],
{
}

/// Setting a length gives that length, keeps the bytes before it, and reads
/// as zeros past the old end.
pub proof fn law_set_len(buf: Seq<u8>, n: int)
    requires
        0 <= n,
    ensures
        set_len(buf, n).len() == n,
        forall|k: int| 0 <= k < n && k < buf.len() ==> #[trigger] set_len(buf, n)[k] == buf[k],
        forall|k: int| buf.len() <= k < n ==> #[trigger] set_len(buf, n)[k] == 0,
{
}

/// A listing recorded at `t` is served exactly while less than the cache's
/// lifetime has passed since `t`; listings of other paths are served as before.
pub proof fn law_listing_served_within_ttl(
    before: Cache,
    after: Cache,
    p: Seq<char>,
    es: Seq<FileEntry>,
    t: Timestamp,
    now: Timestamp,
)
    requires
        after.listing(p) == Some((t, es)),
        forall|q: Seq<char>| q != p ==> after.listing(q) == before.listing(q),
        after.ttl == before.ttl,
    ensures
        after.cached_at(p, now) == (if is_fresh(t, now, after.ttl) {
            Some(es)
        } else {
            None
        }),
        forall|q: Seq<char>| q != p ==> after.cached_at(q, now) == before.cached_at(q, now),
{
}

/// A forgotten listing is never served, whatever the time.
pub proof fn law_invalidated_listing_missed(c: Cache, p: Seq<char>, now: Timestamp)
    requires
        c.listing(p) == None::<(Timestamp, Seq<FileEntry>)>,
    ensures
        c.cached_at(p, now) == None::<Seq<FileEntry>>,
{
}

pub open spec fn inos_distinct(es: Seq<FileEntry>) -> bool {
    forall|i: int, j: int| 0 <= i < j < es.len() ==> es[i].ino != es[j].ino
}

proof fn lemma_put_all_front(
    s: Seq<(u64, crate::entry::CachedFileView)>,
    cap: nat,
    dir: Seq<char>,
    es: Seq<FileEntry>,
)
    requires
        keys_distinct(s),
        s.len() <= cap,
        cap > 0,
        es.len() <= cap,
        inos_distinct(es),
    ensures
        keys_distinct(put_all(s, cap, dir, es)),
        put_all(s, cap, dir, es).len() <= cap,
        put_all(s, cap, dir, es).len() >= es.len(),
        forall|j: int|
            0 <= j < es.len() ==> #[trigger] put_all(s, cap, dir, es)[j] == (
                es[es.len() - 1 - j].ino,
                cached_view(dir, es[es.len() - 1 - j]),
            ),
    decreases es.len(),
{
    if es.len() > 0 {
        let prev = es.drop_last();
        assert(inos_distinct(prev)) by {
            assert forall|i: int, j: int| 0 <= i < j < prev.len() implies prev[i].ino != prev[j].ino by {
                assert(prev[i] == es[i] && prev[j] == es[j]);
            }
        }
        lemma_put_all_front(s, cap, dir, prev);
        let t = put_all(s, cap, dir, prev);
        let e = es.last();
        let v = cached_view(dir, e);
        lemma_put_shape(t, cap, e.ino, v);
        lemma_key_pos(t, e.ino);
        let i = crate::lru_store::key_pos(t, e.ino);
        let r = put_all(s, cap, dir, es);
        assert(r == lru_put(t, cap, e.ino, v));
        let m = prev.len() as int;
        assert forall|j: int| 0 <= j < m implies t[j].0 != e.ino by {
            assert(t[j] == (prev[m - 1 - j].ino, cached_view(dir, prev[m - 1 - j])));
            assert(prev[m - 1 - j] == es[m - 1 - j]);
            assert(es[m - 1 - j].ino != es[es.len() - 1].ino);
        }
        if i >= 0 {
            assert(i >= m);
        }
        assert forall|j: int| 0 <= j < es.len() implies #[trigger] r[j] == (
            es[es.len() - 1 - j].ino,
            cached_view(dir, es[es.len() - 1 - j]),
        ) by {
            if j > 0 {
                assert(r[j] == t[j - 1]);
                assert(t[j - 1] == (prev[m - 1 - (j - 1)].ino, cached_view(dir, prev[m - 1 - (j - 1)])));
                assert(prev[m - 1 - (j - 1)] == es[es.len() - 1 - j]);
            }
        }
    }
}

/// After a listing of `dir` with distinct inode numbers and no more entries
/// than the store holds is put into the store, each entry can be found
/// under its inode number, with its path inside `dir`.
pub proof fn law_listing_entries_cached(
    s: Seq<(u64, crate::entry::CachedFileView)>,
    cap: nat,
    dir: Seq<char>,
    es: Seq<FileEntry>,
)
    requires
        keys_distinct(s),
        s.len() <= cap,
        cap > 0,
        es.len() <= cap,
        inos_distinct(es),
    ensures
        forall|k: int|
            0 <= k < es.len() ==> lru_find(put_all(s, cap, dir, es), #[trigger] es[k].ino) == Some(
                cached_view(dir, es[k]),
            ),
{
    lemma_put_all_front(s, cap, dir, es);
    let r = put_all(s, cap, dir, es);
    assert forall|k: int| 0 <= k < es.len() implies lru_find(r, #[trigger] es[k].ino) == Some(
        cached_view(dir, es[k]),
    ) by {
        let j = es.len() - 1 - k;
        assert(r[j] == (es[k].ino, cached_view(dir, es[k])));
        lemma_key_pos_at(r, es[k].ino, j);
    }
}

/// A full store that takes a new key gives up its least recently used
/// entry and only that one: the new key is found with its value, every
/// other old key with its old value, and the last one no more. Looking an
/// entry up with `peek_file_by_ino` takes the cache by shared reference and
/// so leaves this order alone: an entry only peeked at is still the one to go.
pub proof fn law_full_store_evicts_least_recent<V>(s: Seq<(u64, V)>, cap: nat, k: u64, v: V)
    requires
        keys_distinct(s),
        s.len() == cap,
        cap > 0,
        lru_find(s, k) is None,
    ensures
        lru_find(lru_put(s, cap, k, v), k) == Some(v),
        lru_find(lru_put(s, cap, k, v), s.last().0) is None,
        forall|j: int|
            0 <= j < s.len() - 1 ==> lru_find(lru_put(s, cap, k, v), #[trigger] s[j].0) == Some(s[j].1),
{
    lemma_key_pos(s, k);
    lemma_put_shape(s, cap, k, v);
    let r = lru_put(s, cap, k, v);
    assert(r =~= seq![(k, v)] + s.drop_last());
    lemma_key_pos_at(r, k, 0);
    assert forall|j: int| 0 <= j < s.len() - 1 implies lru_find(r, #[trigger] s[j].0) == Some(s[j].1) by {
        assert(r[j + 1] == s[j]);
        lemma_key_pos_at(r, s[j].0, j + 1);
    }
    let last = s.last().0;
    lemma_key_pos(r, last);
    if crate::lru_store::key_pos(r, last) >= 0 {
        let i = crate::lru_store::key_pos(r, last);
        if i == 0 {
            assert(s[s.len() - 1].0 != k);
        } else {
            assert(r[i] == s[i - 1]);
            assert(s[i - 1].0 != s[s.len() - 1].0);
        }
    }
}

/// An entry that `get_file_by_ino` has just looked up becomes the most
/// recently used, so in a full store with room for two or more entries it
/// survives the next new key.
pub proof fn law_looked_up_entry_survives_next_put<V>(s: Seq<(u64, V)>, cap: nat, k: u64, v: V, j: int)
    requires
        keys_distinct(s),
        s.len() == cap,
        cap >= 2,
        lru_find(s, k) is None,
        0 <= j < s.len(),
    ensures
        lru_find(lru_put(lru_promote(s, s[j].0), cap, k, v), s[j].0) == Some(s[j].1),
{
    lemma_key_pos_at(s, s[j].0, j);
    lemma_promote_shape(s, s[j].0);
    let p = lru_promote(s, s[j].0);
    assert(p[0] == s[j]);
    lemma_key_pos(s, k);
    lemma_key_pos(p, k);
    if crate::lru_store::key_pos(p, k) >= 0 {
        let i = crate::lru_store::key_pos(p, k);
        let jj = choose|jj: int| 0 <= jj < s.len() && s[jj] == #[trigger] p[i];
        assert(s[jj].0 == k);
    }
    law_full_store_evicts_least_recent(p, cap, k, v);
    assert(0 < p.len() - 1);
    assert(lru_find(lru_put(p, cap, k, v), p[0].0) == Some(p[0].1));
}

/// The next descriptor handed out is not open on any file.
pub proof fn law_fresh_descriptor(fs: RemoteFs)
    requires
        fs.fds_below_counter(),
    ensures
        forall|k: u64| #[trigger]
            fs.rfs_files@.contains_key(k) ==> !fs.rfs_files@[k].fds@.contains_key(fs.last_fd),
{
}

proof fn lemma_decimal_no_dash(n: nat)
    ensures
        forall|k: int| 0 <= k < decimal(n).len() ==> #[trigger] decimal(n)[k] != '-',
        decimal(n).len() > 0,
    decreases n,
{
    if n >= 10 {
        lemma_decimal_no_dash(n / 10);
        assert forall|k: int| 0 <= k < decimal(n).len() implies #[trigger] decimal(n)[k] != '-' by {
            if k < decimal(n / 10).len() {
                assert(decimal(n)[k] == decimal(n / 10)[k]);
            }
        }
    }
}

proof fn lemma_find_at(s: Seq<char>, c: char, from: int, at: int)
    requires
        0 <= from <= at <= s.len(),
        forall|k: int| from <= k < at ==> s[k] != c,
        at == s.len() || s[at] == c,
    ensures
        find_from(s, c, from) == at,
    decreases at - from,
{
    if from < at {
        lemma_find_at(s, c, from + 1, at);
    }
}

/// The server reads the range the client asks for: a `Range` header for
/// `size` bytes from `offset` gives that range, its end cut at the last
/// byte of the file.
pub proof fn law_range_header_roundtrip(h: String, offset: u64, size: u32, file_size: u64)
    requires
        h@ == range_header_spec(offset, size),
        size >= 1,
        offset + size - 1 <= u64::MAX,
        file_size > 0,
    ensures
        range_spec(HeaderText::Text(h), file_size) == Ok::<(u64, u64), crate::server::RangeError>((
            offset,
            if offset + size - 1 <= file_size - 1 {
                (offset + size - 1) as u64
            } else {
                (file_size - 1) as u64
            },
        )),
{
    let end = (offset + size - 1) as u64;
    let a = decimal(offset as nat);
    let b = decimal(end as nat);
    let unit = seq!['b', 'y', 't', 'e', 's', '='];
    assert(h@ =~= unit + (a + seq!['-'] + b));
    let rest = h@.skip(6);
    assert(rest =~= a + seq!['-'] + b);
    assert(h@.subrange(0, 6) =~= unit);
    lemma_decimal_no_dash(offset as nat);
    lemma_decimal_no_dash(end as nat);
    let i = a.len() as int;
    assert forall|k: int| 0 <= k < i implies rest[k] != '-' by {
        assert(rest[k] == a[k]);
    }
    lemma_find_at(rest, '-', 0, i);
    assert(rest.take(i) =~= a);
    lemma_parse_decimal_roundtrip(offset);
    let j = rest.len() as int;
    assert forall|k: int| i + 1 <= k < j implies rest[k] != '-' by {
        assert(rest[k] == b[k - i - 1]);
    }
    lemma_find_at(rest, '-', i + 1, j);
    assert(rest.subrange(i + 1, j) =~= b);
    lemma_parse_decimal_roundtrip(end);
}

/// The server reads back the write offset the client sends.
pub proof fn law_write_offset_roundtrip(h: String, offset: u64)
    requires
        h@ == decimal(offset as nat),
    ensures
        write_offset_spec(HeaderText::Text(h)) == offset,
{
    lemma_parse_decimal_roundtrip(offset);
}

/// Where the unsent changes of a file begin never moves past a write: after
/// a write at `off` they begin at or before `off`, and, on a file that
/// already had unsent changes, at or before where those began. So the
/// upload starts at or before every write made since the last flush.
pub proof fn law_changes_begin_before_every_write(f: RfsFile, off: u64)
    ensures
        changed_from(f, off) <= off,
        f.is_dirty ==> changed_from(f, off) <= f.write_offset,
{
}

/// Two writes to an open file, in any state, then the upload that
/// `flush_start` plans: the server's copy holds the second write's bytes
/// where it wrote them, and the first write's bytes wherever the second
/// did not write over them. Every unsent write is uploaded, not only the last.
pub proof fn law_every_unsent_write_is_uploaded(
    server: Seq<u8>,
    f0: RfsFile,
    f1: RfsFile,
    f2: RfsFile,
    off1: u64,
    d1: Seq<u8>,
    off2: u64,
    d2: Seq<u8>,
)
    requires
        d1.len() > 0,
        d2.len() > 0,
        f1.write_buffer@ == write_at(f0.write_buffer@, off1 as int, d1),
        f1.write_offset == changed_from(f0, off1),
        f1.is_dirty,
        f2.write_buffer@ == write_at(f1.write_buffer@, off2 as int, d2),
        f2.write_offset == changed_from(f1, off2),
    ensures
        ({
            let stored = stored_after_put(server, f2.write_offset, upload_body(f2));
            &&& stored.len() >= off2 + d2.len()
            &&& stored.subrange(off2 as int, off2 + d2.len()) == d2
            &&& forall|p: int|
                off1 <= p < off1 + d1.len() && !(off2 <= p < off2 + d2.len()) ==> p < stored.len()
                    && #[trigger] stored[p] == d1[p - off1]
        }),
{
    law_changes_begin_before_every_write(f0, off1);
    law_changes_begin_before_every_write(f1, off2);
    let b1 = f1.write_buffer@;
    let b2 = f2.write_buffer@;
    law_read_after_write(f0.write_buffer@, off1 as int, d1);
    law_read_after_write(b1, off2 as int, d2);
    law_write_keeps_other_bytes(f0.write_buffer@, off1 as int, d1);
    law_write_keeps_other_bytes(b1, off2 as int, d2);
    assert(b2.subrange(off2 as int, off2 + d2.len()) =~= d2);
    lemma_upload_holds_buffer(server, f2, off2 as int, d2.len() as int);
    let stored = stored_after_put(server, f2.write_offset, upload_body(f2));
    assert forall|p: int|
        off1 <= p < off1 + d1.len() && !(off2 <= p < off2 + d2.len()) implies p < stored.len()
            && #[trigger] stored[p] == d1[p - off1] by {
        assert(b1[p] == d1[p - off1]);
        assert(b2[p] == b1[p]);
        lemma_upload_holds_buffer(server, f2, p, 1);
        assert(stored.subrange(p, p + 1)[0] == stored[p]);
        assert(b2.subrange(p, p + 1)[0] == b2[p]);
    }
}

/// After a write of at least one byte from the first byte of an open file,
/// the size it reports is the length of its buffer, which is the length of
/// the file that the planned upload (which replaces the file, as it starts
/// at offset 0) leaves on the server, whatever the file held before.
pub proof fn law_write_from_start_sets_size(server: Seq<u8>, f: RfsFile, g: RfsFile, data: Seq<u8>)
    requires
        data.len() > 0,
        g.write_buffer@ == write_at(f.write_buffer@, 0, data),
        g.write_buffer@.len() <= u64::MAX,
        g.write_offset == changed_from(f, 0),
        g.file_entry.size == size_after_change(f, g.write_offset, g.write_buffer@.len()),
    ensures
        g.write_offset == 0,
        g.file_entry.size == g.write_buffer@.len(),
        g.file_entry.size == stored_after_put(server, g.write_offset, upload_body(g)).len(),
{
    law_changes_begin_before_every_write(f, 0);
    law_read_after_write(f.write_buffer@, 0, data);
    assert(upload_body(g) =~= g.write_buffer@);
}

/// A read served from the read-ahead buffer gives the file's bytes at the
/// positions asked for: it is served from memory exactly when the whole
/// range lies in the buffer, and then its `k`-th byte is the buffer's byte
/// for file position `offset + k`; otherwise the range is fetched from
/// `offset` on, at least `PREFETCH_SIZE` bytes.
pub proof fn law_buffered_read_gives_the_bytes_asked_for(f: RfsFile, offset: i64, size: u32)
    ensures
        ({
            let s = (offset as u64) as int;
            let bs = f.read_buffer_offset as int;
            let be = bs + f.read_buffer@.len();
            &&& (read_plan(f, offset, size) is Data) == (bs <= s && s + size <= be)
            &&& read_plan(f, offset, size) matches ReadStepView::Data(d) ==> d.len() == size && forall|
                k: int,
            |
                0 <= k < size ==> #[trigger] d[k] == f.read_buffer@[s - bs + k]
            &&& !(bs <= s && s + size <= be) ==> read_plan(f, offset, size) == ReadStepView::Fetch(
                f.file_path@,
                offset as u64,
                if size >= PREFETCH_SIZE {
                    size
                } else {
                    PREFETCH_SIZE
                },
            )
        }),
{
}

/// Two paths that `same_path` relates have the same names all along and
/// are both absolute or both not; and the other way round.
pub proof fn law_same_path_is_same_names(a: Seq<char>, b: Seq<char>)
    ensures
        same_path(a, b) ==> segments(a) == segments(b) && is_absolute(a) == is_absolute(b),
        segments(a) == segments(b) && is_absolute(a) == is_absolute(b) ==> same_path(a, b),
{
}

/// Looking a path up among the cached files finds a file whose path has the
/// same names all along (never one in another directory), the first such
/// in the store's order; and finds none only when no cached file has such a path.
pub proof fn law_found_file_has_the_path(s: Seq<(u64, CachedFileView)>, p: Seq<char>)
    ensures
        find_path(s, p) matches Some(c) ==> segments(c.file_path) == segments(p) && is_absolute(
            c.file_path,
        ) == is_absolute(p) && exists|i: int| 0 <= i < s.len() && #[trigger] s[i].1 == c,
        find_path(s, p) is None ==> forall|i: int|
            0 <= i < s.len() ==> !(segments(#[trigger] s[i].1.file_path) == segments(p) && is_absolute(
                s[i].1.file_path,
            ) == is_absolute(p)),
{
    lemma_first_index(s, file_path_is(p));
    let i = first_index(s, file_path_is(p));
    if i >= 0 {
        assert(file_path_is(p)(s[i]));
        assert(s[i].1 == find_path(s, p)->0);
    } else {
        assert forall|j: int| 0 <= j < s.len() implies !(segments(#[trigger] s[j].1.file_path) == segments(
            p,
        ) && is_absolute(s[j].1.file_path) == is_absolute(p)) by {
            assert(!file_path_is(p)(s[j]));
        }
    }
}

/// The size an open file reports after a write of at least one byte, at
/// any offset, is the length of the file that the planned upload leaves on
/// the server, provided the size it reported before was, too (for a file
/// without unsent changes: the server file's length). An upload from the
/// first byte replaces the file; a later one writes over it.
pub proof fn law_size_is_what_the_upload_leaves(
    server: Seq<u8>,
    f: RfsFile,
    g: RfsFile,
    off: u64,
    data: Seq<u8>,
)
    requires
        data.len() > 0,
        g.write_buffer@ == write_at(f.write_buffer@, off as int, data),
        g.write_buffer@.len() <= u64::MAX,
        g.write_offset == changed_from(f, off),
        g.file_entry.size == size_after_change(f, g.write_offset, g.write_buffer@.len()),
        !f.is_dirty ==> f.file_entry.size == server.len(),
        f.is_dirty ==> f.file_entry.size == stored_after_put(server, f.write_offset, upload_body(f)).len(),
    ensures
        g.file_entry.size == stored_after_put(server, g.write_offset, upload_body(g)).len(),
{
    law_changes_begin_before_every_write(f, off);
    law_write_keeps_other_bytes(f.write_buffer@, off as int, data);
    let fb = f.write_buffer@;
    let gb = g.write_buffer@;
    let wo = g.write_offset as int;
    assert(gb.len() >= fb.len());
    assert(gb.len() >= off + data.len());
    let body = upload_body(g);
    assert(body =~= gb.skip(wo));
    if wo > 0 {
        law_write_keeps_other_bytes(server, wo, body);
        assert(stored_after_put(server, g.write_offset, body).len() == if wo + body.len() > server.len() {
            wo + body.len()
        } else {
            server.len() as int
        });
        if f.is_dirty {
            let fo = f.write_offset as int;
            assert(fo > 0);
            let fbody = upload_body(f);
            if fo < fb.len() {
                assert(fbody =~= fb.skip(fo));
                law_write_keeps_other_bytes(server, fo, fbody);
            } else {
                assert(fbody.len() == 0);
            }
        }
    } else {
        assert(stored_after_put(server, g.write_offset, body) =~= gb);
    }
}

} // verus!
