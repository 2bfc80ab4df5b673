//! Rules of the content-addressed chunk store: which chunk ranges are still
//! missing, how a file is cut into chunks and put back together, and the
//! identity (hash) of a file.
use crate::text::{decimal_u64, parse_decimal, same_text};
use vstd::prelude::*;
use vstd::string::*;

verus! {

/// Most missing ranges that one validation reports, so that a negative
/// acknowledgement listing them still fits in one radio frame.
pub const MAX_MISSING_RANGES: usize = 186;

/// Bytes of the Blake2s digest that identifies a file.
pub const HASH_SIZE: usize = 16;

/// Errors of the chunk store.
#[derive(Clone, Debug, PartialEq, Eq)]
pub enum StorageError {
    /// A storage operation failed; `action` says which, `cause` why.
    StorageIO { action: String, cause: String },
    /// Stored metadata could not be read back.
    StorageParse(String),
    /// The reassembled file does not have the expected hash.
    HashMismatch,
    /// The file cannot be finalized yet.
    FinalizeError { cause: String },
    /// A chunk size of zero, or a count or offset past the integer range.
    OutOfRange,
}

pub open spec fn in_range(r: (u32, u32), x: int) -> bool {
    r.0 <= x < r.1
}

pub open spec fn covered(ranges: Seq<(u32, u32)>, x: int) -> bool {
    exists|j: int| 0 <= j < ranges.len() && #[trigger] in_range(ranges[j], x)
}

/// `ranges` are the first maximal runs of indices in `[0, n)` that `present`
/// lacks, in ascending order, at most `MAX_MISSING_RANGES` of them.
pub open spec fn is_missing_ranges(present: Seq<u32>, n: u32, ranges: Seq<(u32, u32)>) -> bool {
    &&& ranges.len() <= MAX_MISSING_RANGES
    &&& forall|j: int| 0 <= j < ranges.len() ==> #[trigger] ranges[j].0 < ranges[j].1 <= n
    &&& forall|j: int| 0 <= j < ranges.len() - 1 ==> #[trigger] ranges[j].1 < ranges[j + 1].0
    &&& forall|j: int, x: int|
        0 <= j < ranges.len() && #[trigger] in_range(ranges[j], x) ==> !present.contains(x as u32)
    &&& forall|j: int|
        0 <= j < ranges.len() ==> (#[trigger] ranges[j].0 == 0 || present.contains((ranges[j].0 - 1) as u32))
    &&& forall|j: int|
        0 <= j < ranges.len() ==> (#[trigger] ranges[j].1 == n || present.contains(ranges[j].1))
    &&& forall|x: int|
        0 <= x < n && !present.contains(x as u32) && (ranges.len() < MAX_MISSING_RANGES
            || x < ranges.last().1) ==> covered(ranges, x)
}

/// The half-open ranges of chunk indices below `num_chunks` that `present`
/// lacks; indices at or past `num_chunks` are ignored.
pub fn missing_ranges(present: &Vec<u32>, num_chunks: u32) -> (r: Vec<(u32, u32)>)
    ensures
        is_missing_ranges(present@, num_chunks, r@),
{
    let mut have: Vec<bool> = Vec::new();
    let mut i: u32 = 0;
    while i < num_chunks
        invariant
            i <= num_chunks,
            have@.len() == i,
            forall|x: int| 0 <= x < i ==> !have@[x],
        decreases num_chunks - i,
    {
        have.push(false);
        i = i + 1;
    }
    let mut k: usize = 0;
    while k < present.len()
        invariant
            k <= present.len(),
            have@.len() == num_chunks,
            forall|x: int|
                0 <= x < num_chunks ==> (have@[x] <==> present@.subrange(0, k as int).contains(x as u32)),
        decreases present.len() - k,
    {
        let p = present[k];
        if p < num_chunks {
            have.set(p as usize, true);
        }
        proof {
            let s0 = present@.subrange(0, k as int);
            let s1 = present@.subrange(0, k + 1);
            assert(s1 =~= s0.push(p));
            assert forall|x: int| 0 <= x < num_chunks implies (have@[x] <==> s1.contains(x as u32)) by {
                if s0.contains(x as u32) {
                    let w = choose|w: int| 0 <= w < s0.len() && s0[w] == x as u32;
                    assert(s1[w] == x as u32);
                }
                if s1.contains(x as u32) && x as u32 != p {
                    let w = choose|w: int| 0 <= w < s1.len() && s1[w] == x as u32;
                    assert(w < s0.len());
                    assert(s0[w] == x as u32);
                }
                if x as u32 == p {
                    assert(s1[k as int] == p);
                }
            }
        }
        k = k + 1;
    }
    assert(present@.subrange(0, present@.len() as int) =~= present@);
    let ghost pr = present@;
    let mut out: Vec<(u32, u32)> = Vec::new();
    let mut i: u32 = 0;
    while i < num_chunks && out.len() < MAX_MISSING_RANGES
        invariant
            i <= num_chunks,
            have@.len() == num_chunks,
            forall|x: int| 0 <= x < num_chunks ==> (have@[x] <==> pr.contains(x as u32)),
            out@.len() <= MAX_MISSING_RANGES,
            forall|j: int| 0 <= j < out@.len() ==> #[trigger] out@[j].0 < out@[j].1 <= i,
            forall|j: int| 0 <= j < out@.len() - 1 ==> #[trigger] out@[j].1 < out@[j + 1].0,
            forall|j: int, x: int|
                0 <= j < out@.len() && #[trigger] in_range(out@[j], x) ==> !pr.contains(x as u32),
            forall|j: int|
                0 <= j < out@.len() ==> (#[trigger] out@[j].0 == 0 || pr.contains((out@[j].0 - 1) as u32)),
            forall|j: int|
                0 <= j < out@.len() ==> (#[trigger] out@[j].1 == num_chunks || pr.contains(out@[j].1)),
            forall|x: int| 0 <= x < i && !pr.contains(x as u32) ==> covered(out@, x),
            i == 0 || pr.contains((i - 1) as u32) || (out@.len() > 0 && out@.last().1 == i),
        decreases num_chunks - i,
    {
        if have[i as usize] {
            i = i + 1;
        } else {
            let start = i;
            #[verifier::loop_isolation(false)]
            while i < num_chunks && !have[i as usize]
                invariant
                    start <= i <= num_chunks,
                    have@.len() == num_chunks,
                    forall|x: int| 0 <= x < num_chunks ==> (have@[x] <==> pr.contains(x as u32)),
                    forall|x: int| start <= x < i ==> !#[trigger] have@[x],
                decreases num_chunks - i,
            {
                i = i + 1;
            }
            let ghost old_out = out@;
            out.push((start, i));
            proof {
                assert forall|x: int| 0 <= x < i && !pr.contains(x as u32) implies covered(out@, x) by {
                    if x < start {
                        assert(covered(old_out, x));
                        let j = choose|j: int| 0 <= j < old_out.len() && #[trigger] in_range(old_out[j], x);
                        assert(out@[j] == old_out[j]);
                        assert(in_range(out@[j], x));
                    } else {
                        assert(in_range(out@[old_out.len() as int], x));
                    }
                }
                assert forall|j: int, x: int|
                    0 <= j < out@.len() && #[trigger] in_range(out@[j], x) implies !pr.contains(x as u32) by {
                    if j < old_out.len() {
                        assert(out@[j] == old_out[j]);
                    } else {
                        assert(out@[j] == (start, i));
                        assert(!have@[x]);
                    }
                }
                if old_out.len() > 0 {
                    let last = old_out[old_out.len() - 1];
                    assert(last.0 < last.1 <= start);
                    assert(last.1 == num_chunks || pr.contains(last.1));
                    assert(!have@[start as int]);
                    assert(last.1 != start);
                }
                assert forall|j: int| 0 <= j < out@.len() - 1 implies #[trigger] out@[j].1 < out@[j + 1].0 by {
                    if j < old_out.len() - 1 {
                        assert(out@[j] == old_out[j]);
                        assert(out@[j + 1] == old_out[j + 1]);
                    } else {
                        assert(out@[j] == old_out[j]);
                        assert(out@[j + 1] == (start, i));
                    }
                }
            }
        }
    }
    proof {
        if out@.len() > 0 {
            let last = out@[out@.len() - 1];
            assert(out@.last() == last);
            assert(last.0 < last.1 <= i);
        }
        assert forall|x: int|
            0 <= x < num_chunks && !pr.contains(x as u32) && (out@.len() < MAX_MISSING_RANGES
                || x < out@.last().1) implies covered(out@, x) by {
            assert(x < i);
        }
    }
    out
}

/// The reported ranges never hold a present chunk; when fewer than
/// `MAX_MISSING_RANGES` are reported, an index below `n` lies in one of
/// them exactly when it is not present, and the ranges ascend.
pub proof fn lemma_missing_ranges_complement(present: Seq<u32>, n: u32, ranges: Seq<(u32, u32)>)
    requires
        is_missing_ranges(present, n, ranges),
    ensures
        forall|x: int| 0 <= x < n && #[trigger] covered(ranges, x) ==> !present.contains(x as u32),
        ranges.len() < MAX_MISSING_RANGES ==> forall|x: int|
            0 <= x < n ==> (#[trigger] covered(ranges, x) <==> !present.contains(x as u32)),
        forall|j: int, k: int| 0 <= j < k < ranges.len() ==> #[trigger] ranges[j].1 < #[trigger] ranges[k].0,
{
    assert forall|j: int, k: int| 0 <= j < k < ranges.len() implies #[trigger] ranges[j].1 < #[trigger] ranges[k].0 by {
        lemma_ranges_ascend(present, n, ranges, j, k);
    }
}

pub(crate) proof fn lemma_ranges_ascend(present: Seq<u32>, n: u32, ranges: Seq<(u32, u32)>, j: int, k: int)
    requires
        is_missing_ranges(present, n, ranges),
        0 <= j < k < ranges.len(),
    ensures
        ranges[j].1 < ranges[k].0,
    decreases k - j,
{
    assert(ranges[j].1 < ranges[j + 1].0);
    if j + 1 < k {
        lemma_ranges_ascend(present, n, ranges, j + 1, k);
        assert(ranges[j + 1].0 < ranges[j + 1].1);
    }
}

/// Number of chunks of `chunk_size` bytes that hold `size` bytes.
pub open spec fn chunk_count_of(size: int, chunk_size: int) -> int {
    (size + chunk_size - 1) / chunk_size
}

/// Number of chunks of `chunk_size` bytes that a file of `size` bytes takes,
/// the last one possibly shorter.
pub fn chunk_count(size: u64, chunk_size: u64) -> (r: Result<u32, StorageError>)
    ensures
        chunk_size > 0 && chunk_count_of(size as int, chunk_size as int) <= u32::MAX ==> r
            == Ok::<u32, StorageError>(chunk_count_of(size as int, chunk_size as int) as u32),
        chunk_size == 0 || chunk_count_of(size as int, chunk_size as int) > u32::MAX ==> r
            == Err::<u32, StorageError>(StorageError::OutOfRange),
{
    if chunk_size == 0 {
        return Err(StorageError::OutOfRange);
    }
    let whole = size / chunk_size;
    if size % chunk_size > 0 {
        assert(whole < u64::MAX) by (nonlinear_arith)
            requires
                chunk_size > 1,
                whole == size / chunk_size,
        {
        }
    }
    let count = if size % chunk_size > 0 {
        whole + 1
    } else {
        whole
    };
    proof {
        let s = size as int;
        let c = chunk_size as int;
        let w = whole as int;
        assert(s == w * c + s % c) by (nonlinear_arith)
            requires
                c > 0,
                w == s / c,
        {
        }
        if s % c > 0 {
            assert((s + c - 1) / c == w + 1) by (nonlinear_arith)
                requires
                    c > 0,
                    s == w * c + s % c,
                    0 < s % c < c,
            {
            }
        } else {
            assert((s + c - 1) / c == w) by (nonlinear_arith)
                requires
                    c > 0,
                    s == w * c,
            {
            }
        }
    }
    if count > u32::MAX as u64 {
        return Err(StorageError::OutOfRange);
    }
    Ok(count as u32)
}

/// Byte offset of chunk `index` in the source file.
pub fn chunk_offset(chunk_size: u64, index: u32) -> (r: Result<u64, StorageError>)
    ensures
        chunk_size * index <= u64::MAX ==> r == Ok::<u64, StorageError>((chunk_size * index) as u64),
        chunk_size * index > u64::MAX ==> r == Err::<u64, StorageError>(StorageError::OutOfRange),
{
    match chunk_size.checked_mul(index as u64) {
        Some(v) => Ok(v),
        None => Err(StorageError::OutOfRange),
    }
}

/// Chunk `i` of `data`: at most `chunk_size` bytes from `i * chunk_size`.
pub open spec fn chunk_of(data: Seq<u8>, chunk_size: int, i: int) -> Seq<u8> {
    let lo = i * chunk_size;
    let hi = if (i + 1) * chunk_size < data.len() { (i + 1) * chunk_size } else { data.len() as int };
    data.subrange(lo, hi)
}

pub open spec fn concat_all(parts: Seq<Seq<u8>>) -> Seq<u8>
    decreases parts.len(),
{
    if parts.len() == 0 {
        Seq::empty()
    } else {
        concat_all(parts.drop_last()) + parts.last()
    }
}

pub open spec fn chunks_of(data: Seq<u8>, chunk_size: int) -> Seq<Seq<u8>> {
    Seq::new(chunk_count_of(data.len() as int, chunk_size) as nat, |i: int| chunk_of(data, chunk_size, i))
}

pub open spec fn views(v: Seq<Vec<u8>>) -> Seq<Seq<u8>> {
    Seq::new(v.len(), |i: int| v[i]@)
}

/// For a chunk size `cs`, chunk `k` starts inside the file exactly when
/// `k` is below the chunk count.
proof fn lemma_chunk_starts_inside(n: int, cs: int, k: int)
    requires
        cs > 0,
        n >= 0,
        k >= 0,
    ensures
        k * cs < n <==> k < chunk_count_of(n, cs),
        chunk_count_of(n, cs) >= 0,
        chunk_count_of(n, cs) * cs >= n,
{
    let q = (n + cs - 1) / cs;
    let r = (n + cs - 1) % cs;
    assert(n + cs - 1 == q * cs + r && 0 <= r < cs) by (nonlinear_arith)
        requires
            cs > 0,
            q == (n + cs - 1) / cs,
            r == (n + cs - 1) % cs,
    {
    }
    assert(q >= 0) by (nonlinear_arith)
        requires
            n + cs - 1 == q * cs + r,
            0 <= r < cs,
            n >= 0,
            cs > 0,
    {
    }
    if k < q {
        assert(k * cs < n) by (nonlinear_arith)
            requires
                k <= q - 1,
                n + cs - 1 == q * cs + r,
                0 <= r < cs,
                cs > 0,
        {
        }
    } else {
        assert(k * cs >= n) by (nonlinear_arith)
            requires
                k >= q,
                n + cs - 1 == q * cs + r,
                0 <= r < cs,
                cs > 0,
        {
        }
    }
    assert(q * cs >= n) by (nonlinear_arith)
        requires
            n + cs - 1 == q * cs + r,
            0 <= r < cs,
    {
    }
}

/// Cuts `data` into chunks of `chunk_size` bytes, the last possibly shorter.
pub fn split_chunks(data: &[u8], chunk_size: usize) -> (r: Vec<Vec<u8>>)
    requires
        chunk_size > 0,
    ensures
        views(r@) == chunks_of(data@, chunk_size as int),
{
    let mut out: Vec<Vec<u8>> = Vec::new();
    let mut lo: usize = 0;
    let ghost n = data@.len() as int;
    let ghost cs = chunk_size as int;
    proof {
        lemma_chunk_starts_inside(n, cs, 0);
    }
    while lo < data.len()
        invariant
            n == data@.len(),
            cs == chunk_size,
            cs > 0,
            out@.len() <= chunk_count_of(n, cs),
            lo as int == if out@.len() * cs < n { out@.len() * cs } else { n },
            lo < n <==> out@.len() < chunk_count_of(n, cs),
            forall|i: int| 0 <= i < out@.len() ==> (#[trigger] out@[i])@ == chunk_of(data@, cs, i),
        decreases data.len() - lo,
    {
        let ghost k = out@.len() as int;
        proof {
            lemma_chunk_starts_inside(n, cs, k);
            lemma_chunk_starts_inside(n, cs, k + 1);
            assert((k + 1) * cs == k * cs + cs) by (nonlinear_arith);
        }
        let hi = if data.len() - lo > chunk_size {
            lo + chunk_size
        } else {
            data.len()
        };
        let mut part: Vec<u8> = Vec::new();
        let mut j: usize = lo;
        while j < hi
            invariant
                lo <= j <= hi,
                hi <= data.len(),
                part@ == data@.subrange(lo as int, j as int),
            decreases hi - j,
        {
            part.push(data[j]);
            j = j + 1;
            assert(part@ =~= data@.subrange(lo as int, j as int));
        }
        assert(part@ == chunk_of(data@, cs, k));
        out.push(part);
        lo = hi;
    }
    proof {
        lemma_chunk_starts_inside(n, cs, out@.len() as int);
        assert(views(out@) =~= chunks_of(data@, cs));
    }
    out
}

/// Puts chunks back together in order.
pub fn assemble(chunks: &Vec<Vec<u8>>) -> (r: Vec<u8>)
    ensures
        r@ == concat_all(views(chunks@)),
{
    let mut out: Vec<u8> = Vec::new();
    let mut i: usize = 0;
    while i < chunks.len()
        invariant
            i <= chunks.len(),
            out@ == concat_all(views(chunks@.subrange(0, i as int))),
        decreases chunks.len() - i,
    {
        let ghost before = out@;
        let part = &chunks[i];
        let mut j: usize = 0;
        while j < part.len()
            invariant
                j <= part.len(),
                out@ == before + part@.subrange(0, j as int),
            decreases part.len() - j,
        {
            out.push(part[j]);
            j = j + 1;
            assert(out@ =~= before + part@.subrange(0, j as int));
        }
        assert(part@.subrange(0, j as int) =~= part@);
        assert(views(chunks@.subrange(0, i + 1)).drop_last() =~= views(chunks@.subrange(0, i as int)));
        i = i + 1;
    }
    assert(chunks@.subrange(0, i as int) =~= chunks@);
    out
}

proof fn lemma_concat_chunk_prefix(data: Seq<u8>, cs: int, k: int)
    requires
        cs > 0,
        0 <= k <= chunk_count_of(data.len() as int, cs),
    ensures
        concat_all(chunks_of(data, cs).subrange(0, k)) == data.subrange(
            0,
            if k * cs < data.len() { k * cs } else { data.len() as int },
        ),
    decreases k,
{
    let n = data.len() as int;
    if k == 0 {
        assert(chunks_of(data, cs).subrange(0, 0) =~= Seq::<Seq<u8>>::empty());
        assert(concat_all(Seq::<Seq<u8>>::empty()) == Seq::<u8>::empty());
        assert(data.subrange(0, 0) =~= Seq::<u8>::empty());
        assert(0 * cs == 0);
    } else {
        lemma_concat_chunk_prefix(data, cs, k - 1);
        lemma_chunk_starts_inside(n, cs, k - 1);
        assert(chunks_of(data, cs).subrange(0, k).drop_last() =~= chunks_of(data, cs).subrange(0, k - 1));
        assert(chunks_of(data, cs).subrange(0, k).last() == chunk_of(data, cs, k - 1));
        assert(concat_all(chunks_of(data, cs).subrange(0, k)) == concat_all(
            chunks_of(data, cs).subrange(0, k - 1),
        ) + chunk_of(data, cs, k - 1));
        assert(k * cs == (k - 1) * cs + cs) by (nonlinear_arith);
        let a = data.subrange(0, (k - 1) * cs);
        let b = chunk_of(data, cs, k - 1);
        assert(concat_all(chunks_of(data, cs).subrange(0, k - 1)) == a);
        assert(a + b =~= data.subrange(0, if k * cs < n { k * cs } else { n }));
    }
}

/// Cutting a file into chunks and putting the chunks back together in order
/// gives the file byte for byte.
pub proof fn lemma_chunk_round_trip(data: Seq<u8>, chunk_size: int)
    requires
        chunk_size > 0,
    ensures
        concat_all(chunks_of(data, chunk_size)) == data,
{
    let k = chunk_count_of(data.len() as int, chunk_size);
    lemma_chunk_starts_inside(data.len() as int, chunk_size, 0);
    lemma_concat_chunk_prefix(data, chunk_size, k);
    assert(chunks_of(data, chunk_size).subrange(0, k) =~= chunks_of(data, chunk_size));
    assert(data.subrange(0, data.len() as int) =~= data);
}

/// The chunk index that a staging entry name denotes: decimal digits whose
/// value fits in `u32`.
pub open spec fn name_index(name: Seq<char>) -> Option<u32> {
    match decimal_u64(name) {
        Some(v) => if v <= u32::MAX {
            Some(v as u32)
        } else {
            None
        },
        None => None,
    }
}

/// The chunk index that a staging entry named `name` holds. Other entries
/// (such as the metadata) hold none.
pub fn chunk_index_of(name: &str) -> (r: Option<u32>)
    ensures
        r == name_index(name@),
{
    proof {
        assert(name@.subrange(0, name@.len() as int) =~= name@);
    }
    match parse_decimal(name, 0, name.unicode_len()) {
        Some(v) => if v <= u32::MAX as u64 {
            Some(v as u32)
        } else {
            None
        },
        None => None,
    }
}

/// The chunk indices that the entries of a staging directory hold, in the
/// order of the entries.
pub fn chunk_indices(names: &Vec<String>) -> (r: Vec<u32>)
    ensures
        forall|x: u32|
            #[trigger] r@.contains(x) <==> exists|i: int|
                0 <= i < names@.len() && name_index(#[trigger] names@[i]@) == Some(x),
{
    let mut out: Vec<u32> = Vec::new();
    let mut i: usize = 0;
    while i < names.len()
        invariant
            i <= names@.len(),
            forall|x: u32|
                #[trigger] out@.contains(x) <==> exists|k: int|
                    0 <= k < i && name_index(#[trigger] names@[k]@) == Some(x),
        decreases names.len() - i,
    {
        let ghost before = out@;
        let got = chunk_index_of(names[i].as_str());
        match got {
            Some(v) => {
                out.push(v);
            },
            None => {},
        }
        proof {
            assert forall|x: u32|
                #[trigger] out@.contains(x) <==> exists|k: int|
                    0 <= k < i + 1 && name_index(#[trigger] names@[k]@) == Some(x) by {
                if out@.contains(x) {
                    let w = choose|w: int| 0 <= w < out@.len() && out@[w] == x;
                    if w < before.len() {
                        assert(before[w] == x);
                        assert(before.contains(x));
                    } else {
                        assert(name_index(names@[i as int]@) == Some(x));
                    }
                }
                if exists|k: int| 0 <= k < i + 1 && name_index(#[trigger] names@[k]@) == Some(x) {
                    let k = choose|k: int| 0 <= k < i + 1 && name_index(#[trigger] names@[k]@) == Some(x);
                    if k < i {
                        assert(before.contains(x));
                        let w = choose|w: int| 0 <= w < before.len() && before[w] == x;
                        assert(out@[w] == x);
                    } else {
                        assert(out@[out@.len() - 1] == x);
                    }
                }
            }
        }
        i = i + 1;
    }
    out
}

/// A file may be finalized once every chunk below `num_chunks` is present.
pub fn ready_to_finalize(present: &Vec<u32>, num_chunks: u32) -> (r: Result<(), StorageError>)
    ensures
        r is Ok <==> forall|x: u32| x < num_chunks ==> #[trigger] present@.contains(x),
        match r {
            Err(StorageError::FinalizeError { cause }) => cause@ == missing_chunks_text(),
            Err(_) => false,
            Ok(_) => true,
        },
{
    let ranges = missing_ranges(present, num_chunks);
    if ranges.len() == 0 {
        proof {
            assert forall|x: u32| x < num_chunks implies #[trigger] present@.contains(x) by {
                if !present@.contains(x) {
                    assert(present@.contains((x as int) as u32) == present@.contains(x));
                    assert(covered(ranges@, x as int));
                }
            }
        }
        Ok(())
    } else {
        proof {
            let x = ranges@[0].0 as int;
            assert(in_range(ranges@[0], x));
            assert(!present@.contains(ranges@[0].0));
        }
        proof {
            reveal_strlit("file missing chunks");
        }
        Err(StorageError::FinalizeError { cause: String::from_str("file missing chunks") })
    }
}

pub open spec fn missing_chunks_text() -> Seq<char> {
    seq!['f', 'i', 'l', 'e', ' ', 'm', 'i', 's', 's', 'i', 'n', 'g', ' ', 'c', 'h', 'u', 'n', 'k', 's']
}

/// A name for the 16-byte unkeyed Blake2s digest of the bytes.
pub uninterp spec fn blake2s_16(data: Seq<u8>) -> Seq<u8>;

/// Relies on `blake2_rfc::blake2s::blake2s` with output length 16 and an
/// empty key; `Blake2sResult::as_bytes` gives the 16 digest bytes.
#[verifier::external_body]
fn blake2s_digest(data: &[u8]) -> (r: Vec<u8>)
    ensures
        r@ == blake2s_16(data@),
        r@.len() == HASH_SIZE,
{
    blake2_rfc::blake2s::blake2s(HASH_SIZE, &[], data).as_bytes().to_vec()
}

pub open spec fn hex_char(d: int) -> char {
    if d < 10 {
        ('0' as int + d) as char
    } else {
        ('a' as int + d - 10) as char
    }
}

/// Two lowercase hex digits per byte.
pub open spec fn hex_text(b: Seq<u8>) -> Seq<char>
    decreases b.len(),
{
    if b.len() == 0 {
        Seq::empty()
    } else {
        hex_text(b.drop_last()) + seq![hex_char(b.last() as int / 16), hex_char(b.last() as int % 16)]
    }
}

pub(crate) fn hex_digit(d: u8) -> (r: &'static str)
    requires
        d < 16,
    ensures
        r@ == seq![hex_char(d as int)],
{
    proof {
        reveal_strlit("0");
        reveal_strlit("1");
        reveal_strlit("2");
        reveal_strlit("3");
        reveal_strlit("4");
        reveal_strlit("5");
        reveal_strlit("6");
        reveal_strlit("7");
        reveal_strlit("8");
        reveal_strlit("9");
        reveal_strlit("a");
        reveal_strlit("b");
        reveal_strlit("c");
        reveal_strlit("d");
        reveal_strlit("e");
        reveal_strlit("f");
    }
    let r = match d {
        0 => "0",
        1 => "1",
        2 => "2",
        3 => "3",
        4 => "4",
        5 => "5",
        6 => "6",
        7 => "7",
        8 => "8",
        9 => "9",
        10 => "a",
        11 => "b",
        12 => "c",
        13 => "d",
        14 => "e",
        _ => "f",
    };
    assert(r@ =~= seq![hex_char(d as int)]);
    r
}

/// Lowercase hex text of the bytes.
pub fn hex_encode(b: &[u8]) -> (r: String)
    ensures
        r@ == hex_text(b@),
        r@.len() == 2 * b@.len(),
{
    let mut out = String::new();
    let mut i: usize = 0;
    while i < b.len()
        invariant
            i <= b@.len(),
            out@ == hex_text(b@.subrange(0, i as int)),
            out@.len() == 2 * i,
        decreases b.len() - i,
    {
        let ghost before = out@;
        out.append(hex_digit(b[i] / 16));
        out.append(hex_digit(b[i] % 16));
        proof {
            assert(b@.subrange(0, i + 1).drop_last() =~= b@.subrange(0, i as int));
            assert(out@ =~= hex_text(b@.subrange(0, i + 1)));
        }
        i = i + 1;
    }
    assert(b@.subrange(0, i as int) =~= b@);
    out
}

/// The identity of a file in the store: the hex text of its 16-byte Blake2s
/// digest.
pub fn file_hash(data: &[u8]) -> (r: String)
    ensures
        r@ == hex_text(blake2s_16(data@)),
        r@.len() == 2 * HASH_SIZE,
{
    let digest = blake2s_digest(data);
    hex_encode(digest.as_slice())
}

/// Whether `digest` is the digest that the hex text `expected` names.
pub fn digest_matches(digest: &[u8], expected: &str) -> (r: bool)
    ensures
        r == (hex_text(digest@) == expected@),
{
    let text = hex_encode(digest);
    same_text(text.as_str(), expected)
}

/// Puts the chunks of a file back together and checks the result against
/// the hash that names the file.
pub fn reassemble(chunks: &Vec<Vec<u8>>, expected_hash: &str) -> (r: Result<Vec<u8>, StorageError>)
    ensures
        hex_text(blake2s_16(concat_all(views(chunks@)))) == expected_hash@ ==> r is Ok && r->Ok_0@
            == concat_all(views(chunks@)),
        hex_text(blake2s_16(concat_all(views(chunks@)))) != expected_hash@ ==> r == Err::<
            Vec<u8>,
            StorageError,
        >(StorageError::HashMismatch),
{
    let data = assemble(chunks);
    let digest = blake2s_digest(data.as_slice());
    if digest_matches(digest.as_slice(), expected_hash) {
        Ok(data)
    } else {
        Err(StorageError::HashMismatch)
    }
}

/// The chunks loaded so far while a file is finalized, and the first
/// error met loading one.
pub struct ChunkCollector {
    chunks: Vec<Vec<u8>>,
    first_error: Option<StorageError>,
}

impl ChunkCollector {
    pub closed spec fn chunks(&self) -> Seq<Seq<u8>> {
        views(self.chunks@)
    }

    pub closed spec fn first_error(&self) -> Option<StorageError> {
        self.first_error
    }

    /// Nothing loaded yet.
    pub fn new() -> (r: ChunkCollector)
        ensures
            r.chunks() == Seq::<Seq<u8>>::empty(),
            r.first_error() is None,
    {
        let r = ChunkCollector { chunks: Vec::new(), first_error: None };
        assert(r.chunks() =~= Seq::<Seq<u8>>::empty());
        r
    }

    /// Records how loading the next chunk went. Returns whether the chunk
    /// failed to load, in which case its staging file is to be deleted;
    /// the later chunks are still loaded.
    pub fn add(&mut self, loaded: Result<Vec<u8>, StorageError>) -> (failed: bool)
        ensures
            failed == loaded is Err,
            loaded is Ok ==> final(self).chunks() == old(self).chunks().push(loaded->Ok_0@)
                && final(self).first_error() == old(self).first_error(),
            loaded is Err ==> final(self).chunks() == old(self).chunks() && final(self).first_error() == if old(
                self,
            ).first_error() is Some {
                old(self).first_error()
            } else {
                Some(loaded->Err_0)
            },
    {
        match loaded {
            Ok(chunk) => {
                self.chunks.push(chunk);
                assert(self.chunks() =~= old(self).chunks().push(loaded->Ok_0@));
                false
            },
            Err(e) => {
                if self.first_error.is_none() {
                    self.first_error = Some(e);
                }
                true
            },
        }
    }

    /// The first load error, if any; otherwise the reassembled file,
    /// checked against its hash as `reassemble` does.
    pub fn finish(self, expected_hash: &str) -> (r: Result<Vec<u8>, StorageError>)
        ensures
            self.first_error() is Some ==> r == Err::<Vec<u8>, StorageError>(self.first_error()->0),
            self.first_error() is None && hex_text(blake2s_16(concat_all(self.chunks())))
                == expected_hash@ ==> r is Ok && r->Ok_0@ == concat_all(self.chunks()),
            self.first_error() is None && hex_text(blake2s_16(concat_all(self.chunks())))
                != expected_hash@ ==> r == Err::<Vec<u8>, StorageError>(StorageError::HashMismatch),
    {
        match self.first_error {
            Some(e) => Err(e),
            None => reassemble(&self.chunks, expected_hash),
        }
    }
}

/// Reassembling the chunks that a file was cut into gives the file, and it
/// passes the check against the file's own hash.
pub proof fn lemma_reassemble_split(data: Seq<u8>, chunk_size: int)
    requires
        chunk_size > 0,
    ensures
        concat_all(chunks_of(data, chunk_size)) == data,
        hex_text(blake2s_16(concat_all(chunks_of(data, chunk_size)))) == hex_text(blake2s_16(data)),
{
    lemma_chunk_round_trip(data, chunk_size);
}

} // verus!
