//! Splitting document text into overlapping windows of characters.
//!
//! A document of length `len` (in Unicode code points) is cut into windows of
//! `chunk_size` characters; consecutive windows share `overlap` characters.
//! Windows advance by `chunk_size - overlap` and emission stops as soon as a
//! window reaches the end of the document, so the final window may be shorter
//! than `chunk_size`.

use vstd::prelude::*;
use vstd::arithmetic::div_mod::{lemma_fundamental_div_mod, lemma_fundamental_div_mod_converse, lemma_mod_bound};
use crate::document::DocumentReader;
use crate::errors::RagError;

verus! {

/// The chunking parameters allow progress: windows are nonempty and each
/// window starts strictly after the previous one.
pub open spec fn valid_chunk_config(chunk_size: nat, overlap: nat) -> bool {
    0 < chunk_size && overlap < chunk_size
}

/// Offset at which chunk `k` begins.
pub open spec fn chunk_start(k: int, chunk_size: int, overlap: int) -> int {
    k * (chunk_size - overlap)
}

/// Offset one past the last character of chunk `k` of a document of length
/// `len`: the window is cut off at the end of the document.
pub open spec fn chunk_end(k: int, chunk_size: int, overlap: int, len: int) -> int {
    if chunk_start(k, chunk_size, overlap) + chunk_size <= len {
        chunk_start(k, chunk_size, overlap) + chunk_size
    } else {
        len
    }
}

/// How many chunks a document of length `len` yields.
pub open spec fn num_chunks(len: nat, chunk_size: nat, overlap: nat) -> nat
    decreases len,
{
    if !valid_chunk_config(chunk_size, overlap) {
        0
    } else if len == 0 {
        0
    } else if len <= chunk_size {
        1
    } else {
        1 + num_chunks((len - (chunk_size - overlap)) as nat, chunk_size, overlap)
    }
}

/// The text of chunk `k` of `text`.
pub open spec fn chunk_window(text: Seq<char>, k: int, chunk_size: int, overlap: int) -> Seq<char> {
    text.subrange(
        chunk_start(k, chunk_size, overlap),
        chunk_end(k, chunk_size, overlap, text.len() as int),
    )
}

/// All chunks of `text`, in document order.
pub open spec fn chunk_windows(text: Seq<char>, chunk_size: nat, overlap: nat) -> Seq<Seq<char>> {
    Seq::new(
        num_chunks(text.len(), chunk_size, overlap),
        |k: int| chunk_window(text, k, chunk_size as int, overlap as int),
    )
}

/// Every chunk index below `num_chunks` names a nonempty in-bounds window,
/// and a chunk is final exactly when its window reaches the end.
pub proof fn lemma_chunk_bounds(len: nat, chunk_size: nat, overlap: nat, k: nat)
    requires
        valid_chunk_config(chunk_size, overlap),
        k < num_chunks(len, chunk_size, overlap),
    ensures
        0 <= chunk_start(k as int, chunk_size as int, overlap as int) < len,
        chunk_start(k as int, chunk_size as int, overlap as int)
            < chunk_end(k as int, chunk_size as int, overlap as int, len as int) <= len,
        k + 1 < num_chunks(len, chunk_size, overlap)
            <==> chunk_start(k as int, chunk_size as int, overlap as int) + chunk_size < len,
        k + 1 == num_chunks(len, chunk_size, overlap)
            ==> chunk_end(k as int, chunk_size as int, overlap as int, len as int) == len,
    decreases len,
{
    let c = chunk_size as int;
    let o = overlap as int;
    assert(k * (c - o) >= 0) by (nonlinear_arith)
        requires k >= 0 && c - o >= 0;
    if len <= chunk_size {
        assert(num_chunks(len, chunk_size, overlap) == 1);
        assert(k == 0);
        assert(chunk_start(0, c, o) == 0) by (nonlinear_arith);
    } else {
        let shorter = (len - (chunk_size - overlap)) as nat;
        if k == 0 {
            assert(chunk_start(0, c, o) == 0) by (nonlinear_arith);
            // A longer-than-chunk_size document always has a second chunk.
            assert(num_chunks(shorter, chunk_size, overlap) >= 1);
        } else {
            lemma_chunk_bounds(shorter, chunk_size, overlap, (k - 1) as nat);
            assert((k - 1) * (c - o) == k * (c - o) - (c - o)) by (nonlinear_arith);
        }
    }
}

/// Position `pos` falls inside some chunk window of a document of length `len`.
pub open spec fn covered_by_some_chunk(pos: int, len: nat, chunk_size: nat, overlap: nat) -> bool {
    exists|k: int|
        0 <= k < num_chunks(len, chunk_size, overlap)
        && #[trigger] chunk_start(k, chunk_size as int, overlap as int) <= pos
        && pos < chunk_end(k, chunk_size as int, overlap as int, len as int)
}

/// Chunk coverage: the chunk windows of a document of length `len` stay
/// inside `[0, len)` and together cover all of it, and each chunk shares
/// exactly `overlap` characters with the one before it.
pub proof fn lemma_chunk_coverage(len: nat, chunk_size: nat, overlap: nat)
    requires
        valid_chunk_config(chunk_size, overlap),
    ensures
        forall|k: int| 0 <= k < num_chunks(len, chunk_size, overlap)
            ==> 0 <= chunk_start(k, chunk_size as int, overlap as int)
                && chunk_end(k, chunk_size as int, overlap as int, len as int) <= len,
        forall|pos: int| 0 <= pos < len
            ==> #[trigger] covered_by_some_chunk(pos, len, chunk_size, overlap),
        forall|k: int| 0 <= k && k + 1 < num_chunks(len, chunk_size, overlap)
            ==> #[trigger] chunk_end(k, chunk_size as int, overlap as int, len as int)
                    - chunk_start(k + 1, chunk_size as int, overlap as int) == overlap
                && chunk_end(k, chunk_size as int, overlap as int, len as int)
                    <= chunk_end(k + 1, chunk_size as int, overlap as int, len as int),
{
    let c = chunk_size as int;
    let o = overlap as int;
    let n = num_chunks(len, chunk_size, overlap) as int;
    let d = c - o;
    assert forall|k: int| 0 <= k < n
        implies 0 <= chunk_start(k, c, o) && chunk_end(k, c, o, len as int) <= len by {
        lemma_chunk_bounds(len, chunk_size, overlap, k as nat);
    }
    assert forall|k: int| 0 <= k && k + 1 < n
        implies #[trigger] chunk_end(k, c, o, len as int) - chunk_start(k + 1, c, o) == overlap
            && chunk_end(k, c, o, len as int) <= chunk_end(k + 1, c, o, len as int) by {
        lemma_chunk_bounds(len, chunk_size, overlap, k as nat);
        lemma_chunk_bounds(len, chunk_size, overlap, (k + 1) as nat);
        assert((k + 1) * d == k * d + d) by (nonlinear_arith);
        // A non-final chunk is full, so its end is its start plus chunk_size.
        assert(chunk_end(k, c, o, len as int) == chunk_start(k, c, o) + c);
    }
    assert forall|pos: int| 0 <= pos < len
        implies #[trigger] covered_by_some_chunk(pos, len, chunk_size, overlap) by {
        lemma_fundamental_div_mod(pos, d);
        lemma_mod_bound(pos, d);
        let q = pos / d;
        assert(q * d == d * q) by (nonlinear_arith);
        assert(q * d <= pos < q * d + d);
        assert(q >= 0) by (nonlinear_arith)
            requires pos < q * d + d && 0 <= pos && d > 0;
        assert(n >= 1);
        if q < n {
            lemma_chunk_bounds(len, chunk_size, overlap, q as nat);
            assert(chunk_start(q, c, o) <= pos && pos < chunk_end(q, c, o, len as int));
        } else {
            lemma_chunk_bounds(len, chunk_size, overlap, (n - 1) as nat);
            assert((n - 1) * d <= q * d) by (nonlinear_arith)
                requires n - 1 <= q && d > 0;
            assert(chunk_start(n - 1, c, o) <= pos && pos < chunk_end(n - 1, c, o, len as int));
        }
    }
}

/// Chunk count: a nonempty document longer than the overlap yields
/// `ceil((len - overlap) / (chunk_size - overlap))` chunks, and an empty
/// document yields none.
pub proof fn lemma_chunk_count(len: nat, chunk_size: nat, overlap: nat)
    requires
        valid_chunk_config(chunk_size, overlap),
        len == 0 || len > overlap,
    ensures
        num_chunks(len, chunk_size, overlap) == if len == 0 {
            0int
        } else {
            (len - overlap + (chunk_size - overlap) - 1) / (chunk_size - overlap)
        },
    decreases len,
{
    let c = chunk_size as int;
    let o = overlap as int;
    let d = c - o;
    if len == 0 {
    } else if len <= chunk_size {
        // One chunk; the numerator lies in [d, 2d), so the quotient is 1.
        lemma_fundamental_div_mod_converse(len - o + d - 1, d, 1, len - o - 1);
    } else {
        let shorter = (len - (chunk_size - overlap)) as nat;
        lemma_chunk_count(shorter, chunk_size, overlap);
        // The numerator shrinks by one divisor, so the quotient drops by one.
        let x = len - o + d - 1;
        let q = (x - d) / d;
        lemma_fundamental_div_mod(x - d, d);
        lemma_mod_bound(x - d, d);
        assert((q + 1) * d == q * d + d) by (nonlinear_arith);
        assert(x == (q + 1) * d + (x - d) % d) by {
            assert(x - d == d * q + (x - d) % d);
            assert(d * q == q * d) by (nonlinear_arith);
        }
        lemma_fundamental_div_mod_converse(x, d, q + 1, (x - d) % d);
        assert(shorter - o + d - 1 == x - d);
    }
}

/// Splits `text` into its sequence of overlapping windows.
///
/// Fails with `InvalidConfig` exactly when the parameters cannot make
/// progress; otherwise chunk `k` of the result is the window
/// `[k * (chunk_size - overlap), min(k * (chunk_size - overlap) + chunk_size, len))`
/// of the code-point sequence of `text`.
pub fn split_text(text: &str, chunk_size: usize, overlap: usize) -> (r: Result<Vec<String>, RagError>)
    ensures
        match r {
            Ok(chunks) => {
                &&& valid_chunk_config(chunk_size as nat, overlap as nat)
                &&& chunks.deep_view() == chunk_windows(text@, chunk_size as nat, overlap as nat)
            },
            Err(e) => {
                &&& !valid_chunk_config(chunk_size as nat, overlap as nat)
                &&& e is InvalidConfig
            },
        },
{
    if chunk_size == 0 || overlap >= chunk_size {
        return Err(RagError::InvalidConfig);
    }
    let l = text.unicode_len();
    let ghost n = num_chunks(text@.len(), chunk_size as nat, overlap as nat);
    let mut chunks: Vec<String> = Vec::new();
    if l == 0 {
        assert(chunks.deep_view() =~= chunk_windows(text@, chunk_size as nat, overlap as nat));
        return Ok(chunks);
    }
    let mut start: usize = 0;
    proof {
        assert(chunk_start(0, chunk_size as int, overlap as int) == 0) by (nonlinear_arith);
    }
    loop
        invariant_except_break
            0 < chunk_size,
            overlap < chunk_size,
            l == text@.len(),
            0 < l,
            chunks.len() < n,
            n == num_chunks(text@.len(), chunk_size as nat, overlap as nat),
            start == chunk_start(chunks.len() as int, chunk_size as int, overlap as int),
            start < l,
            forall|k: int| 0 <= k < chunks.len()
                ==> (#[trigger] chunks@[k])@
                    == chunk_window(text@, k, chunk_size as int, overlap as int),
        ensures
            chunks.len() == n,
            forall|k: int| 0 <= k < chunks.len()
                ==> (#[trigger] chunks@[k])@
                    == chunk_window(text@, k, chunk_size as int, overlap as int),
        decreases l - start,
    {
        let ghost k = chunks.len() as int;
        let end = if l - start <= chunk_size { l } else { start + chunk_size };
        proof {
            lemma_chunk_bounds(text@.len(), chunk_size as nat, overlap as nat, chunks.len() as nat);
            assert(end == chunk_end(k, chunk_size as int, overlap as int, l as int));
        }
        let piece = text.substring_char(start, end);
        chunks.push(piece.to_owned());
        if end == l {
            proof {
                assert(chunks.len() == n);
            }
            break;
        }
        proof {
            assert((k + 1) * (chunk_size - overlap) == k * (chunk_size - overlap) + (chunk_size - overlap))
                by (nonlinear_arith);
            lemma_chunk_bounds(text@.len(), chunk_size as nat, overlap as nat, (k + 1) as nat);
        }
        start = start + chunk_size - overlap;
    }
    proof {
        assert(chunks.deep_view() =~= chunk_windows(text@, chunk_size as nat, overlap as nat));
    }
    Ok(chunks)
}

/// The chunk texts of a batch of documents, in document order.
pub open spec fn all_chunk_windows(docs: Seq<DocumentReader>, chunk_size: nat, overlap: nat) -> Seq<Seq<char>>
    decreases docs.len(),
{
    if docs.len() == 0 {
        Seq::empty()
    } else {
        chunk_windows(docs.first().contents@, chunk_size, overlap)
            + all_chunk_windows(docs.drop_first(), chunk_size, overlap)
    }
}

/// The title of the owning document, repeated once per chunk, for a batch of
/// documents in document order.
pub open spec fn all_chunk_titles(docs: Seq<DocumentReader>, chunk_size: nat, overlap: nat) -> Seq<Seq<char>>
    decreases docs.len(),
{
    if docs.len() == 0 {
        Seq::empty()
    } else {
        Seq::new(
            num_chunks(docs.first().contents@.len(), chunk_size, overlap),
            |i: int| docs.first().title@,
        ) + all_chunk_titles(docs.drop_first(), chunk_size, overlap)
    }
}

proof fn lemma_all_chunk_windows_snoc(docs: Seq<DocumentReader>, d: DocumentReader, chunk_size: nat, overlap: nat)
    ensures
        all_chunk_windows(docs.push(d), chunk_size, overlap)
            == all_chunk_windows(docs, chunk_size, overlap)
                + chunk_windows(d.contents@, chunk_size, overlap),
        all_chunk_titles(docs.push(d), chunk_size, overlap)
            == all_chunk_titles(docs, chunk_size, overlap)
                + Seq::new(num_chunks(d.contents@.len(), chunk_size, overlap), |i: int| d.title@),
    decreases docs.len(),
{
    if docs.len() == 0 {
        assert(docs.push(d).drop_first() =~= docs);
        assert(all_chunk_windows(docs.push(d), chunk_size, overlap)
            =~= all_chunk_windows(docs, chunk_size, overlap)
                + chunk_windows(d.contents@, chunk_size, overlap));
        assert(all_chunk_titles(docs.push(d), chunk_size, overlap)
            =~= all_chunk_titles(docs, chunk_size, overlap)
                + Seq::new(num_chunks(d.contents@.len(), chunk_size, overlap), |i: int| d.title@));
    } else {
        lemma_all_chunk_windows_snoc(docs.drop_first(), d, chunk_size, overlap);
        assert(docs.push(d).drop_first() =~= docs.drop_first().push(d));
        assert(all_chunk_windows(docs.push(d), chunk_size, overlap)
            =~= all_chunk_windows(docs, chunk_size, overlap)
                + chunk_windows(d.contents@, chunk_size, overlap));
        assert(all_chunk_titles(docs.push(d), chunk_size, overlap)
            =~= all_chunk_titles(docs, chunk_size, overlap)
                + Seq::new(num_chunks(d.contents@.len(), chunk_size, overlap), |i: int| d.title@));
    }
}

/// One chunk of a document: a fresh identifier, the owning document's title,
/// and a contiguous window of the document's text.
#[derive(Debug)]
pub struct Chunk {
    /// Freshly generated identifier, unique to this indexing run.
    pub id: String,
    /// Title of the document the chunk was cut from.
    pub title: String,
    /// The chunk's text window.
    pub content: String,
}

/// Splits one document into its ordered sequence of overlapping chunks, each
/// tagged with the document's title and a freshly generated id.
///
/// Fails with `InvalidConfig` exactly when the parameters cannot make
/// progress; otherwise chunk `k` carries the window
/// `[k * (chunk_size - overlap), min(k * (chunk_size - overlap) + chunk_size, len))`
/// of the document's code-point sequence.
pub fn split(document: &DocumentReader, chunk_size: usize, overlap: usize) -> (r: Result<
    Vec<Chunk>,
    RagError,
>)
    ensures
        match r {
            Ok(chunks) => {
                &&& valid_chunk_config(chunk_size as nat, overlap as nat)
                &&& chunks@.len() == num_chunks(document.contents@.len(), chunk_size as nat, overlap as nat)
                &&& forall|k: int| 0 <= k < chunks@.len() ==> {
                    &&& (#[trigger] chunks@[k]).content@
                        == chunk_window(document.contents@, k, chunk_size as int, overlap as int)
                    &&& chunks@[k].title@ == document.title@
                    &&& chunks@[k].id@.len() == 36
                }
            },
            Err(e) => {
                &&& !valid_chunk_config(chunk_size as nat, overlap as nat)
                &&& e is InvalidConfig
            },
        },
{
    let windows = match split_text(document.contents.as_str(), chunk_size, overlap) {
        Ok(w) => w,
        Err(e) => {
            return Err(e);
        },
    };
    let mut chunks: Vec<Chunk> = Vec::new();
    let mut i: usize = 0;
    let n = windows.len();
    while i < n
        invariant
            i <= n,
            n == windows@.len(),
            windows.deep_view() == chunk_windows(document.contents@, chunk_size as nat, overlap as nat),
            chunks@.len() == i,
            forall|k: int| 0 <= k < i ==> {
                &&& (#[trigger] chunks@[k]).content@
                    == chunk_window(document.contents@, k, chunk_size as int, overlap as int)
                &&& chunks@[k].title@ == document.title@
                &&& chunks@[k].id@.len() == 36
            },
        decreases n - i,
    {
        proof {
            assert(windows.deep_view().len() == windows@.len());
            assert(windows.deep_view()[i as int] == windows@[i as int]@);
            assert(chunk_windows(document.contents@, chunk_size as nat, overlap as nat)[i as int]
                == chunk_window(document.contents@, i as int, chunk_size as int, overlap as int));
        }
        chunks.push(Chunk {
            id: fresh_id(),
            title: document.title.clone(),
            content: windows[i].clone(),
        });
        i = i + 1;
    }
    proof {
        assert(windows@.len()
            == chunk_windows(document.contents@, chunk_size as nat, overlap as nat).len());
    }
    Ok(chunks)
}

/// Relies on `uuid::Uuid::new_v4` and the hyphenated `Display` form of
/// `uuid::Uuid`: a fresh random version-4 identifier rendered as 36
/// characters. The value is random, so nothing more is promised of it.
#[verifier::external_body]
fn fresh_id() -> (r: String)
    ensures
        r@.len() == 36,
{
    uuid::Uuid::new_v4().to_string()
}

/// Splits each document of a batch into overlapping chunks and returns, in
/// document order, the chunk texts, the owning document's title repeated once
/// per chunk, and one freshly generated 36-character id per chunk.
///
/// Fails with `InvalidConfig` exactly when `chunk_size` is zero or `overlap`
/// is not smaller than `chunk_size`.
pub fn document_splitter(data: &[DocumentReader], chunk_size: usize, overlap: usize)
    -> (r: Result<(Vec<String>, Vec<String>, Vec<String>), RagError>)
    ensures
        match r {
            Ok(out) => {
                &&& valid_chunk_config(chunk_size as nat, overlap as nat)
                &&& out.0.deep_view() == all_chunk_windows(data@, chunk_size as nat, overlap as nat)
                &&& out.1.deep_view() == all_chunk_titles(data@, chunk_size as nat, overlap as nat)
                &&& out.1.len() == out.0.len()
                &&& out.2.len() == out.0.len()
                &&& forall|i: int| 0 <= i < out.2.len() ==> (#[trigger] out.2@[i])@.len() == 36
            },
            Err(e) => {
                &&& !valid_chunk_config(chunk_size as nat, overlap as nat)
                &&& e is InvalidConfig
            },
        },
{
    if chunk_size == 0 || overlap >= chunk_size {
        return Err(RagError::InvalidConfig);
    }
    let mut chunks: Vec<String> = Vec::new();
    let mut titles: Vec<String> = Vec::new();
    let mut i: usize = 0;
    proof {
        assert(data@.take(0) =~= Seq::<DocumentReader>::empty());
    }
    while i < data.len()
        invariant
            valid_chunk_config(chunk_size as nat, overlap as nat),
            i <= data@.len(),
            chunks.deep_view() == all_chunk_windows(data@.take(i as int), chunk_size as nat, overlap as nat),
            titles.deep_view() == all_chunk_titles(data@.take(i as int), chunk_size as nat, overlap as nat),
            titles.len() == chunks.len(),
        decreases data@.len() - i,
    {
        let document = &data[i];
        let windows = match split_text(document.contents.as_str(), chunk_size, overlap) {
            Ok(w) => w,
            Err(e) => {
                return Err(e);
            },
        };
        let ghost pre_titles = titles@;
        let mut j: usize = 0;
        while j < windows.len()
            invariant
                j <= windows@.len(),
                titles@ =~= pre_titles + Seq::new(j as nat, |k: int| document.title),
            decreases windows@.len() - j,
        {
            titles.push(document.title.clone());
            proof {
                assert(titles@ =~= pre_titles + Seq::new((j + 1) as nat, |k: int| document.title));
            }
            j = j + 1;
        }
        let ghost pre_chunks = chunks@;
        let mut windows = windows;
        chunks.append(&mut windows);
        proof {
            lemma_all_chunk_windows_snoc(data@.take(i as int), data@[i as int], chunk_size as nat, overlap as nat);
            assert(data@.take(i + 1) =~= data@.take(i as int).push(data@[i as int]));
            assert forall|k: int| 0 <= k < chunks@.len()
                implies (#[trigger] chunks.deep_view()[k])
                    == all_chunk_windows(data@.take(i + 1), chunk_size as nat, overlap as nat)[k] by {
                if k < pre_chunks.len() {
                    assert(chunks.deep_view()[k] == pre_chunks[k]@);
                }
            }
            assert(chunks.deep_view()
                =~= all_chunk_windows(data@.take(i + 1), chunk_size as nat, overlap as nat));
            assert forall|k: int| 0 <= k < titles@.len()
                implies (#[trigger] titles.deep_view()[k])
                    == all_chunk_titles(data@.take(i + 1), chunk_size as nat, overlap as nat)[k] by {
                if k < pre_titles.len() {
                    assert(titles.deep_view()[k] == pre_titles[k]@);
                }
            }
            assert(titles.deep_view()
                =~= all_chunk_titles(data@.take(i + 1), chunk_size as nat, overlap as nat));
        }
        i = i + 1;
    }
    let mut ids: Vec<String> = Vec::new();
    let n = chunks.len();
    while ids.len() < n
        invariant
            ids.len() <= n,
            forall|k: int| 0 <= k < ids.len() ==> (#[trigger] ids@[k])@.len() == 36,
        decreases n - ids.len(),
    {
        ids.push(fresh_id());
    }
    proof {
        assert(data@.take(data@.len() as int) =~= data@);
    }
    Ok((chunks, titles, ids))
}

} // verus!
