//! The training configuration blob: "TCF1", the training window (u32), the
//! seed (u64), the number of dataset directories (u32), then each directory
//! as a u32 length and its bytes.
use vstd::prelude::*;
use vstd::string::StringSliceAdditionalSpecFns;
use crate::bytes::{
    u32_le, u64_le, le32, le64, read_u32_le, read_u64_le, push_u32_le, push_u64_le, push_bytes,
    write_bytes, bytes_equal, splice, lemma_u32_le, lemma_u64_le, at, lemma_at_split, lemma_at_le32,
    lemma_at_le64, lemma_at_sub,
};

verus! {

broadcast use vstd::slice::group_slice_axioms;

/// The magic "TCF1".
pub open spec fn tcf_magic() -> Seq<u8> {
    seq![0x54u8, 0x43, 0x46, 0x31]
}

/// The bytes of a directory entry.
pub open spec fn dir_entry(d: Seq<u8>) -> Seq<u8> {
    u32_le(d.len() as u32) + d
}

/// The pieces the encoder writes in turn: magic, window, seed, count, then
/// the length and the bytes of each directory.
pub open spec fn tc_pieces(window: usize, seed: u64, dirs: Seq<Seq<u8>>) -> Seq<Seq<u8>> {
    seq![tcf_magic(), u32_le(window as u32), u64_le(seed), u32_le(dirs.len() as u32)] + Seq::new(
        2 * dirs.len(),
        |i: int|
            if i % 2 == 0 {
                u32_le(dirs[i / 2].len() as u32)
            } else {
                dirs[i / 2]
            },
    )
}

/// The first `k` pieces, one after the other.
pub open spec fn concat_first(pieces: Seq<Seq<u8>>, k: int) -> Seq<u8>
    decreases k,
{
    if k <= 0 {
        Seq::empty()
    } else {
        concat_first(pieces, k - 1) + pieces[k - 1]
    }
}

/// The number of leading pieces that fit in `cap` bytes.
pub open spec fn fit_count(pieces: Seq<Seq<u8>>, cap: int, k: int) -> int
    decreases pieces.len() - k,
{
    if k >= pieces.len() || concat_first(pieces, k + 1).len() > cap {
        k
    } else {
        fit_count(pieces, cap, k + 1)
    }
}

/// The bytes of the directory names.
pub open spec fn dirs_bytes(dirs: Seq<&str>) -> Seq<Seq<u8>> {
    dirs.map_values(|d: &str| d.spec_bytes())
}

proof fn lemma_concat_push(pieces: Seq<Seq<u8>>, k: int)
    requires
        0 <= k < pieces.len(),
    ensures
        concat_first(pieces, k + 1) == concat_first(pieces, k) + pieces[k],
{
}

/// Writes the training configuration into `out`, piece by piece; stops
/// with `None` at the first piece that does not fit, leaving the pieces
/// before it written.
pub fn train_config_encode(
    train_window: usize,
    seed: u64,
    dataset_dirs: &[&str],
    out: &mut [u8],
) -> (r: Option<usize>)
    ensures
        ({
            let pieces = tc_pieces(train_window, seed, dirs_bytes(dataset_dirs@));
            let k = fit_count(pieces, old(out)@.len() as int, 0);
            &&& final(out)@ == splice(old(out)@, 0, concat_first(pieces, k))
            &&& r is Some <==> k == pieces.len()
            &&& r matches Some(n) ==> n == concat_first(pieces, pieces.len() as int).len()
        }),
{
    let ghost pieces = tc_pieces(train_window, seed, dirs_bytes(dataset_dirs@));
    let ghost cap = out@.len() as int;
    let ghost s0 = out@;
    let cap_len = out.len();
    let mut v: Vec<u8> = Vec::new();
    let mut placed: usize = 0;
    // the fixed pieces
    let magic: [u8; 4] = [0x54, 0x43, 0x46, 0x31];
    let mut fixed: Vec<u8> = Vec::new();
    push_bytes(&mut fixed, &magic);
    assert(fixed@ =~= tcf_magic());
    let ghost p0 = fixed@;
    let mut w: Vec<u8> = Vec::new();
    push_u32_le(&mut w, train_window as u32);
    let mut sd: Vec<u8> = Vec::new();
    push_u64_le(&mut sd, seed);
    let mut cnt: Vec<u8> = Vec::new();
    push_u32_le(&mut cnt, dataset_dirs.len() as u32);
    proof {
        assert(pieces[0] == tcf_magic());
        assert(pieces[1] == w@);
        assert(pieces[2] == sd@);
        assert(pieces[3] == cnt@);
        lemma_u32_le(train_window as u32);
        lemma_u64_le(seed);
        lemma_u32_le(dataset_dirs@.len() as u32);
        assert(concat_first(pieces, 0) =~= Seq::<u8>::empty());
    }
    let mut all: Vec<Vec<u8>> = Vec::new();
    all.push(fixed);
    all.push(w);
    all.push(sd);
    all.push(cnt);
    let mut d: usize = 0;
    while d < dataset_dirs.len()
        invariant
            all@.len() == 4 + 2 * d,
            d <= dataset_dirs@.len(),
            pieces == tc_pieces(train_window, seed, dirs_bytes(dataset_dirs@)),
            forall|j: int| 0 <= j < all@.len() ==> (#[trigger] all@[j])@ == pieces[j],
        decreases dataset_dirs@.len() - d,
    {
        let b = dataset_dirs[d].as_bytes();
        let mut len_bytes: Vec<u8> = Vec::new();
        push_u32_le(&mut len_bytes, b.len() as u32);
        let mut body: Vec<u8> = Vec::new();
        push_bytes(&mut body, b);
        proof {
            assert(pieces[4 + 2 * d] == u32_le(dataset_dirs@[d as int].spec_bytes().len() as u32));
            assert(pieces[4 + 2 * d + 1] == dataset_dirs@[d as int].spec_bytes());
        }
        all.push(len_bytes);
        all.push(body);
        d = d + 1;
    }
    assert(all@.len() == pieces.len());
    let mut i: usize = 0;
    while i < all.len()
        invariant
            all@.len() == pieces.len(),
            forall|j: int| 0 <= j < all@.len() ==> (#[trigger] all@[j])@ == pieces[j],
            i <= all@.len(),
            cap == s0.len(),
            s0 == old(out)@,
            pieces == tc_pieces(train_window, seed, dirs_bytes(dataset_dirs@)),
            cap_len == cap,
            v@ == concat_first(pieces, i as int),
            v@.len() <= cap,
            fit_count(pieces, cap, 0) == fit_count(pieces, cap, i as int),
            out@ == s0,
        decreases all@.len() - i,
    {
        let piece = all[i].as_slice();
        if piece.len() > cap_len - v.len() {
            proof {
                lemma_concat_push(pieces, i as int);
                assert(fit_count(pieces, cap, i as int) == i);
            }
            write_bytes(out, 0, v.as_slice());
            return None;
        }
        push_bytes(&mut v, piece);
        proof {
            lemma_concat_push(pieces, i as int);
        }
        i = i + 1;
    }
    write_bytes(out, 0, v.as_slice());
    Some(v.len())
}

/// A decoded training configuration.
pub struct TrainConfigView<'a> {
    pub train_window: usize,
    pub seed: u64,
    pub dir_count: usize,
    pub blob: &'a [u8],
    pub dirs_off: usize,
}

/// Reads the header of a training configuration; `None` when `blob` is
/// shorter than 20 bytes or does not start with "TCF1".
pub fn train_config_decode<'a>(blob: &'a [u8]) -> (r: Option<TrainConfigView<'a>>)
    ensures
        r is Some <==> blob@.len() >= 20 && blob@.subrange(0, 4) == tcf_magic(),
        r matches Some(v) ==> {
            &&& v.train_window == le32(blob@, 4)
            &&& v.seed == le64(blob@, 8)
            &&& v.dir_count == le32(blob@, 16)
            &&& v.blob@ == blob@
            &&& v.dirs_off == 20
        },
{
    if blob.len() < 20 {
        return None;
    }
    let magic: [u8; 4] = [0x54, 0x43, 0x46, 0x31];
    assert(magic@ =~= tcf_magic());
    if !bytes_equal(vstd::slice::slice_subrange(blob, 0, 4), &magic) {
        return None;
    }
    Some(
        TrainConfigView {
            train_window: read_u32_le(blob, 4) as usize,
            seed: read_u64_le(blob, 8),
            dir_count: read_u32_le(blob, 16) as usize,
            blob,
            dirs_off: 20,
        },
    )
}

/// Where directory `index` lies, walking the entries from `cursor`, entry
/// `i` of `count`.
pub open spec fn dir_walk(b: Seq<u8>, cursor: int, i: int, count: int, index: int) -> Option<(int, int)>
    decreases count - i,
{
    if i >= count {
        None
    } else if cursor + 4 > b.len() {
        None
    } else {
        let start = cursor + 4;
        let end = start + le32(b, cursor);
        if end > b.len() {
            None
        } else if i == index {
            Some((start, end))
        } else {
            dir_walk(b, end, i + 1, count, index)
        }
    }
}

/// Whether `b` lies in `[lo, hi]`.
pub open spec fn in_range(b: u8, lo: u8, hi: u8) -> bool {
    lo <= b <= hi
}

/// The length of the well-formed UTF-8 character that starts at `b[i]`, by
/// the table of well-formed byte sequences of the Unicode standard; `None`
/// when no well-formed character starts there.
pub open spec fn utf8_char_len(b: Seq<u8>, i: int) -> Option<int> {
    let n = b.len() - i;
    let c0 = b[i];
    if n < 1 {
        None
    } else if c0 <= 0x7f {
        Some(1)
    } else if in_range(c0, 0xc2, 0xdf) {
        if n >= 2 && in_range(b[i + 1], 0x80, 0xbf) {
            Some(2)
        } else {
            None
        }
    } else if in_range(c0, 0xe0, 0xef) {
        let (lo, hi) = if c0 == 0xe0 {
            (0xa0u8, 0xbfu8)
        } else if c0 == 0xed {
            (0x80u8, 0x9fu8)
        } else {
            (0x80u8, 0xbfu8)
        };
        if n >= 3 && in_range(b[i + 1], lo, hi) && in_range(b[i + 2], 0x80, 0xbf) {
            Some(3)
        } else {
            None
        }
    } else if in_range(c0, 0xf0, 0xf4) {
        let (lo, hi) = if c0 == 0xf0 {
            (0x90u8, 0xbfu8)
        } else if c0 == 0xf4 {
            (0x80u8, 0x8fu8)
        } else {
            (0x80u8, 0xbfu8)
        };
        if n >= 4 && in_range(b[i + 1], lo, hi) && in_range(b[i + 2], 0x80, 0xbf) && in_range(
            b[i + 3],
            0x80,
            0xbf,
        ) {
            Some(4)
        } else {
            None
        }
    } else {
        None
    }
}

/// Whether `b[i..]` is a sequence of well-formed UTF-8 characters.
pub open spec fn valid_utf8_from(b: Seq<u8>, i: int) -> bool
    decreases b.len() - i,
{
    if i >= b.len() {
        true
    } else {
        match utf8_char_len(b, i) {
            Some(l) => if l >= 1 {
                valid_utf8_from(b, i + l)
            } else {
                false
            },
            None => false,
        }
    }
}

/// Whether `b` is well-formed UTF-8.
pub open spec fn valid_utf8(b: Seq<u8>) -> bool {
    valid_utf8_from(b, 0)
}

/// `core::str::from_utf8`, which std documents to succeed exactly on
/// well-formed UTF-8: the claim is that it returns a string exactly when
/// the bytes are well-formed UTF-8, and that the string has exactly those
/// bytes.
#[verifier::external_body]
fn str_from_utf8(b: &[u8]) -> (r: Option<&str>)
    ensures
        r is Some <==> valid_utf8(b@),
        r matches Some(s) ==> s.spec_bytes() == b@,
{
    core::str::from_utf8(b).ok()
}

impl<'a> TrainConfigView<'a> {
    /// Directory `index`, when the entries up to it are whole and its bytes
    /// are well-formed UTF-8.
    pub fn dir(&self, index: usize) -> (r: Option<&'a str>)
        requires
            self.dirs_off <= self.blob@.len(),
        ensures
            dir_walk(self.blob@, self.dirs_off as int, 0, self.dir_count as int, index as int) is None
                ==> r is None,
            r matches Some(s) ==> dir_walk(
                self.blob@,
                self.dirs_off as int,
                0,
                self.dir_count as int,
                index as int,
            ) matches Some((a, e)) && s.spec_bytes() == self.blob@.subrange(a, e),
            r is Some <==> (dir_walk(
                self.blob@,
                self.dirs_off as int,
                0,
                self.dir_count as int,
                index as int,
            ) matches Some((a, e)) && valid_utf8(self.blob@.subrange(a, e))),
    {
        let n = self.blob.len();
        let ghost target = dir_walk(
            self.blob@,
            self.dirs_off as int,
            0,
            self.dir_count as int,
            index as int,
        );
        let mut cursor = self.dirs_off;
        let mut i: usize = 0;
        while i < self.dir_count
            invariant
                n == self.blob@.len(),
                cursor <= n,
                i <= self.dir_count,
                target == dir_walk(
                    self.blob@,
                    self.dirs_off as int,
                    0,
                    self.dir_count as int,
                    index as int,
                ),
                target == dir_walk(self.blob@, cursor as int, i as int, self.dir_count as int, index as int),
            decreases self.dir_count - i,
        {
            if n - cursor < 4 {
                return None;
            }
            let len = read_u32_le(self.blob, cursor) as usize;
            let start = cursor + 4;
            if len > n - start {
                return None;
            }
            if i == index {
                return str_from_utf8(vstd::slice::slice_subrange(self.blob, start, start + len));
            }
            cursor = start + len;
            i = i + 1;
        }
        None
    }
}

// ---------------------------------------------------------------- reading back

/// The entries of the first `k` directories.
pub open spec fn dirs_concat(dirs: Seq<Seq<u8>>, k: int) -> Seq<u8>
    decreases k,
{
    if k <= 0 {
        Seq::empty()
    } else {
        dirs_concat(dirs, k - 1) + dir_entry(dirs[k - 1])
    }
}

/// The 20 header bytes.
pub open spec fn tc_header(window: usize, seed: u64, count: int) -> Seq<u8> {
    tcf_magic() + u32_le(window as u32) + u64_le(seed) + u32_le(count as u32)
}

#[verifier::rlimit(40)]
proof fn lemma_pieces_concat(window: usize, seed: u64, dirs: Seq<Seq<u8>>, k: int)
    requires
        0 <= k <= dirs.len(),
    ensures
        concat_first(tc_pieces(window, seed, dirs), 4 + 2 * k) == tc_header(
            window,
            seed,
            dirs.len() as int,
        ) + dirs_concat(dirs, k),
    decreases k,
{
    let p = tc_pieces(window, seed, dirs);
    let fixed = seq![tcf_magic(), u32_le(window as u32), u64_le(seed), u32_le(dirs.len() as u32)];
    let tail = Seq::new(
        2 * dirs.len(),
        |i: int|
            if i % 2 == 0 {
                u32_le(dirs[i / 2].len() as u32)
            } else {
                dirs[i / 2]
            },
    );
    assert(p == fixed + tail);
    if k == 0 {
        assert(p[0] == tcf_magic());
        assert(p[1] == u32_le(window as u32));
        assert(p[2] == u64_le(seed));
        assert(p[3] == u32_le(dirs.len() as u32));
        assert(concat_first(p, 1) == concat_first(p, 0) + p[0]);
        assert(concat_first(p, 2) == concat_first(p, 1) + p[1]);
        assert(concat_first(p, 3) == concat_first(p, 2) + p[2]);
        assert(concat_first(p, 4) == concat_first(p, 3) + p[3]);
        assert(concat_first(p, 4) =~= tc_header(window, seed, dirs.len() as int));
        assert(dirs_concat(dirs, 0) =~= Seq::<u8>::empty());
        assert(tc_header(window, seed, dirs.len() as int) + Seq::<u8>::empty() =~= tc_header(
            window,
            seed,
            dirs.len() as int,
        ));
    } else {
        lemma_pieces_concat(window, seed, dirs, k - 1);
        let i0 = 2 * (k - 1);
        assert(i0 % 2 == 0 && i0 / 2 == k - 1);
        assert((i0 + 1) % 2 == 1 && (i0 + 1) / 2 == k - 1);
        assert(p[4 + i0] == tail[i0]);
        assert(p[4 + i0 + 1] == tail[i0 + 1]);
        assert(tail[i0] == u32_le(dirs[k - 1].len() as u32));
        assert(tail[i0 + 1] == dirs[k - 1]);
        assert(concat_first(p, 4 + 2 * k - 1) == concat_first(p, 4 + 2 * (k - 1)) + p[4 + i0]);
        assert(concat_first(p, 4 + 2 * k) == concat_first(p, 4 + 2 * k - 1) + p[4 + i0 + 1]);
        assert(concat_first(p, 4 + 2 * k) =~= tc_header(window, seed, dirs.len() as int)
            + dirs_concat(dirs, k));
    }
}

proof fn lemma_dir_walk(b: Seq<u8>, base: int, dirs: Seq<Seq<u8>>, j: int, index: int)
    requires
        0 <= j <= index < dirs.len(),
        dirs.len() <= u32::MAX,
        forall|m: int| 0 <= m < dirs.len() ==> (#[trigger] dirs[m]).len() <= u32::MAX,
        0 <= base,
        at(b, base, dirs_concat(dirs, dirs.len() as int)),
    ensures
        dir_walk(b, base + dirs_concat(dirs, j).len(), j, dirs.len() as int, index) == Some(
            (
                base + dirs_concat(dirs, index).len() + 4,
                base + dirs_concat(dirs, index).len() + 4 + dirs[index].len(),
            ),
        ),
        b.subrange(
            base + dirs_concat(dirs, index).len() + 4,
            base + dirs_concat(dirs, index).len() + 4 + dirs[index].len(),
        ) == dirs[index],
    decreases index - j,
{
    lemma_entries_prefix(b, base, dirs, j + 1, dirs.len() as int);
    let off = base + dirs_concat(dirs, j).len();
    lemma_u32_le(dirs[j].len() as u32);
    lemma_at_split(b, base, dirs_concat(dirs, j), dir_entry(dirs[j]));
    lemma_at_split(b, off, u32_le(dirs[j].len() as u32), dirs[j]);
    lemma_at_le32(b, off, dirs[j].len() as u32);
    lemma_at_sub(b, off + 4, dirs[j], off + 4, off + 4 + dirs[j].len());
    assert(dirs[j].subrange(0, dirs[j].len() as int) =~= dirs[j]);
    if j < index {
        lemma_dir_walk(b, base, dirs, j + 1, index);
    }
}

proof fn lemma_entries_prefix(b: Seq<u8>, base: int, dirs: Seq<Seq<u8>>, k: int, n: int)
    requires
        0 <= k <= n <= dirs.len(),
        at(b, base, dirs_concat(dirs, n)),
    ensures
        at(b, base, dirs_concat(dirs, k)),
    decreases n - k,
{
    if k < n {
        lemma_at_split(b, base, dirs_concat(dirs, n - 1), dir_entry(dirs[n - 1]));
        lemma_entries_prefix(b, base, dirs, k, n - 1);
    }
}

/// A written configuration reads back: its header gives the window (as a
/// 32-bit value), the seed and the directory count, and each directory's
/// entry is found where it was written, with the same bytes.
pub proof fn law_train_config_roundtrip(window: usize, seed: u64, dirs: Seq<Seq<u8>>)
    requires
        dirs.len() <= u32::MAX,
        forall|m: int| 0 <= m < dirs.len() ==> (#[trigger] dirs[m]).len() <= u32::MAX,
    ensures
        ({
            let b = concat_first(tc_pieces(window, seed, dirs), 4 + 2 * dirs.len() as int);
            &&& b.len() >= 20
            &&& b.subrange(0, 4) == tcf_magic()
            &&& le32(b, 4) == window as u32
            &&& le64(b, 8) == seed
            &&& le32(b, 16) == dirs.len()
            &&& forall|i: int|
                0 <= i < dirs.len() ==> ((#[trigger] dir_walk(b, 20, 0, dirs.len() as int, i))
                    matches Some((a, e)) && b.subrange(a, e) == dirs[i])
        }),
{
    let n = dirs.len() as int;
    let b = concat_first(tc_pieces(window, seed, dirs), 4 + 2 * n);
    lemma_pieces_concat(window, seed, dirs, n);
    let h = tc_header(window, seed, n);
    lemma_u32_le(window as u32);
    lemma_u64_le(seed);
    lemma_u32_le(n as u32);
    assert(at(b, 0, b)) by {
        assert(b.subrange(0, b.len() as int) =~= b);
    }
    lemma_at_split(b, 0, h, dirs_concat(dirs, n));
    let m = tcf_magic();
    lemma_at_split(b, 0, m + u32_le(window as u32) + u64_le(seed), u32_le(n as u32));
    lemma_at_split(b, 0, m + u32_le(window as u32), u64_le(seed));
    lemma_at_split(b, 0, m, u32_le(window as u32));
    lemma_at_sub(b, 0, m, 0, 4);
    assert(m.subrange(0, 4) =~= m);
    lemma_at_le32(b, 4, window as u32);
    lemma_at_le64(b, 8, seed);
    lemma_at_le32(b, 16, n as u32);
    assert forall|i: int| 0 <= i < n implies ((#[trigger] dir_walk(b, 20, 0, n, i)) matches Some(
        (a, e),
    ) && b.subrange(a, e) == dirs[i]) by {
        lemma_dir_walk(b, 20, dirs, 0, i);
        assert(dirs_concat(dirs, 0).len() == 0);
    }
}

} // verus!
