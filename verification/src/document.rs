//! Documents and the title a document takes from its file path.

use vstd::prelude::*;

verus! {

/// One ingested document: a title derived from the file name, and the full
/// extracted text.
#[derive(Debug)]
pub struct DocumentReader {
    /// Title of the document, used to trace chunks back to their source.
    pub title: String,
    /// The document's whole text.
    pub contents: String,
}

/// The suffix of `s` after its last `'/'` (all of `s` when there is none).
pub open spec fn after_last_slash(s: Seq<char>) -> Seq<char>
    decreases s.len(),
{
    if s.len() == 0 {
        s
    } else if s.last() == '/' {
        Seq::empty()
    } else {
        after_last_slash(s.drop_last()).push(s.last())
    }
}

/// The prefix of `s` before its first `'.'` (all of `s` when there is none).
pub open spec fn before_first_dot(s: Seq<char>) -> Seq<char>
    decreases s.len(),
{
    if s.len() == 0 {
        s
    } else if s.first() == '.' {
        Seq::empty()
    } else {
        seq![s.first()] + before_first_dot(s.drop_first())
    }
}

/// `s` with every space replaced by an underscore.
pub open spec fn underscore_spaces(s: Seq<char>) -> Seq<char> {
    Seq::new(s.len(), |i: int| if s[i] == ' ' { '_' } else { s[i] })
}

/// The title a document takes from its path: the file name stem (after the
/// last slash, before the first dot of the file name), spaces underscored.
pub open spec fn title_of_path(path: Seq<char>) -> Seq<char> {
    underscore_spaces(before_first_dot(after_last_slash(path)))
}

proof fn lemma_after_last_slash_subrange(s: Seq<char>, p: int)
    requires
        0 <= p <= s.len(),
        forall|i: int| p <= i < s.len() ==> s[i] != '/',
        p == 0 || s[p - 1] == '/',
    ensures
        after_last_slash(s) == s.subrange(p, s.len() as int),
    decreases s.len(),
{
    if s.len() == p {
        if p == 0 {
            assert(after_last_slash(s) =~= s.subrange(p, s.len() as int));
        } else {
            assert(s.last() == '/');
            assert(after_last_slash(s) =~= s.subrange(p, s.len() as int));
        }
    } else {
        assert(s.last() != '/');
        lemma_after_last_slash_subrange(s.drop_last(), p);
        assert(s.drop_last().subrange(p, s.drop_last().len() as int).push(s.last())
            =~= s.subrange(p, s.len() as int));
    }
}

proof fn lemma_before_first_dot_subrange(s: Seq<char>, q: int)
    requires
        0 <= q <= s.len(),
        forall|i: int| 0 <= i < q ==> s[i] != '.',
        q == s.len() || s[q] == '.',
    ensures
        before_first_dot(s) == s.subrange(0, q),
    decreases q,
{
    if q == 0 {
        assert(before_first_dot(s) =~= s.subrange(0, 0));
    } else {
        assert(s.first() != '.');
        lemma_before_first_dot_subrange(s.drop_first(), q - 1);
        assert(seq![s.first()] + s.drop_first().subrange(0, q - 1) =~= s.subrange(0, q));
    }
}

/// Derives a document title from a file path: the file name without directory
/// or extension, with spaces replaced by underscores.
pub fn title_from_path(path: &str) -> (r: String)
    ensures
        r@ == title_of_path(path@),
{
    let n = path.unicode_len();
    let mut fstart: usize = 0;
    let mut i: usize = 0;
    while i < n
        invariant
            fstart <= i <= n,
            n == path@.len(),
            forall|j: int| fstart <= j < i ==> path@[j] != '/',
            fstart == 0 || path@[fstart - 1] == '/',
        decreases n - i,
    {
        if path.get_char(i) == '/' {
            fstart = i + 1;
        }
        i = i + 1;
    }
    let mut fend: usize = fstart;
    while fend < n && path.get_char(fend) != '.'
        invariant
            fstart <= fend <= n,
            n == path@.len(),
            forall|j: int| fstart <= j < fend ==> path@[j] != '.',
        decreases n - fend,
    {
        fend = fend + 1;
    }
    proof {
        lemma_after_last_slash_subrange(path@, fstart as int);
        lemma_before_first_dot_subrange(path@.subrange(fstart as int, n as int), (fend - fstart) as int);
        assert(path@.subrange(fstart as int, n as int).subrange(0, (fend - fstart) as int)
            =~= path@.subrange(fstart as int, fend as int));
    }
    let ghost stem = path@.subrange(fstart as int, fend as int);
    let mut title = String::new();
    let mut j = fstart;
    while j < fend
        invariant
            fstart <= j <= fend <= n,
            n == path@.len(),
            stem == path@.subrange(fstart as int, fend as int),
            title@ =~= underscore_spaces(stem.subrange(0, j - fstart)),
        decreases fend - j,
    {
        let c = path.get_char(j);
        if c == ' ' {
            title.append("_");
            proof {
                reveal_strlit("_");
            }
        } else {
            let one = path.substring_char(j, j + 1);
            title.append(one);
        }
        proof {
            assert(title@ =~= underscore_spaces(stem.subrange(0, j + 1 - fstart)));
        }
        j = j + 1;
    }
    proof {
        assert(stem.subrange(0, fend - fstart) =~= stem);
    }
    title
}

} // verus!
