//! The flattened album index: every album of the library beside the name
//! of its artist, for browsing by album.
//!
//! Entries are ordered by album name without regard to case, then by artist
//! name without regard to case, and entries that still rank alike by the
//! exact album name and the exact artist name.

use crate::album::{Album, AlbumView, ArtistView};
use crate::sorting::Ranked;
use crate::text::{
    lemma_text_lt_total, lemma_text_lt_transitive, lowercase, lowercase_of, text_equal, text_le,
    text_lt, text_precedes,
};
use vstd::prelude::*;

verus! {

/// The mathematical value of an entry of the index.
pub type EntryView = (Seq<char>, AlbumView);

/// The order of the entries of the index.
pub open spec fn entry_le(a: EntryView, b: EntryView) -> bool {
    let la = lowercase_of(a.1.name);
    let lb = lowercase_of(b.1.name);
    let ra = lowercase_of(a.0);
    let rb = lowercase_of(b.0);
    ||| text_lt(la, lb)
    ||| la == lb && text_lt(ra, rb)
    ||| la == lb && ra == rb && text_lt(a.1.name, b.1.name)
    ||| la == lb && ra == rb && a.1.name == b.1.name && text_le(a.0, b.0)
}

/// Two entries are for the same album of the same artist.
pub open spec fn same_album(a: EntryView, b: EntryView) -> bool {
    a.0 == b.0 && a.1.name == b.1.name
}

/// `a` comes strictly before `b` in the order of entries.
pub open spec fn entry_lt(a: EntryView, b: EntryView) -> bool {
    entry_le(a, b) && !same_album(a, b)
}

/// Two entries that each come before the other are for the same album.
pub proof fn lemma_entry_le_antisymmetric(a: EntryView, b: EntryView)
    requires
        entry_le(a, b),
        entry_le(b, a),
    ensures
        same_album(a, b),
{
    lemma_text_lt_total(lowercase_of(a.1.name), lowercase_of(b.1.name));
    lemma_text_lt_total(lowercase_of(a.0), lowercase_of(b.0));
    lemma_text_lt_total(a.1.name, b.1.name);
    lemma_text_lt_total(a.0, b.0);
}

proof fn lemma_text_le_transitive(a: Seq<char>, b: Seq<char>, c: Seq<char>)
    requires
        text_le(a, b),
        text_le(b, c),
    ensures
        text_le(a, c),
        text_lt(a, b) || text_lt(b, c) ==> text_lt(a, c),
{
    lemma_text_lt_total(a, b);
    lemma_text_lt_total(b, c);
    lemma_text_lt_total(a, c);
    if a != b && b != c {
        lemma_text_lt_transitive(a, b, c);
    }
}

impl Ranked for (String, Album) {
    open spec fn rank_le(a: EntryView, b: EntryView) -> bool {
        entry_le(a, b)
    }

    proof fn lemma_rank_total(a: EntryView, b: EntryView) {
        lemma_text_lt_total(lowercase_of(a.1.name), lowercase_of(b.1.name));
        lemma_text_lt_total(lowercase_of(a.0), lowercase_of(b.0));
        lemma_text_lt_total(a.1.name, b.1.name);
        lemma_text_lt_total(a.0, b.0);
    }

    proof fn lemma_rank_transitive(a: EntryView, b: EntryView, c: EntryView) {
        let la = lowercase_of(a.1.name);
        let lb = lowercase_of(b.1.name);
        let lc = lowercase_of(c.1.name);
        let ra = lowercase_of(a.0);
        let rb = lowercase_of(b.0);
        let rc = lowercase_of(c.0);
        lemma_text_lt_total(la, lb);
        lemma_text_lt_total(lb, lc);
        lemma_text_le_transitive(la, lb, lc);
        if la == lb && lb == lc {
            lemma_text_lt_total(ra, rb);
            lemma_text_lt_total(rb, rc);
            lemma_text_le_transitive(ra, rb, rc);
            if ra == rb && rb == rc {
                lemma_text_lt_total(a.1.name, b.1.name);
                lemma_text_lt_total(b.1.name, c.1.name);
                lemma_text_le_transitive(a.1.name, b.1.name, c.1.name);
                if a.1.name == b.1.name && b.1.name == c.1.name {
                    lemma_text_le_transitive(a.0, b.0, c.0);
                }
            }
        }
    }

    fn ranks_le(&self, other: &Self) -> (r: bool) {
        proof {
            let a = self.deep_view();
            let b = other.deep_view();
            lemma_text_lt_total(lowercase_of(a.1.name), lowercase_of(b.1.name));
            lemma_text_lt_total(lowercase_of(a.0), lowercase_of(b.0));
            lemma_text_lt_total(a.1.name, b.1.name);
        }
        let la = lowercase(self.1.name.as_str());
        let lb = lowercase(other.1.name.as_str());
        if !text_equal(la.as_str(), lb.as_str()) {
            return text_precedes(la.as_str(), lb.as_str());
        }
        let ra = lowercase(self.0.as_str());
        let rb = lowercase(other.0.as_str());
        if !text_equal(ra.as_str(), rb.as_str()) {
            return text_precedes(ra.as_str(), rb.as_str());
        }
        if !text_equal(self.1.name.as_str(), other.1.name.as_str()) {
            return text_precedes(self.1.name.as_str(), other.1.name.as_str());
        }
        !text_precedes(other.0.as_str(), self.0.as_str())
    }
}

/// A copy of a list of entries.
pub(crate) fn clone_entries(entries: &Vec<(String, Album)>) -> (r: Vec<(String, Album)>)
    ensures
        r.deep_view() == entries.deep_view(),
{
    let mut r: Vec<(String, Album)> = Vec::new();
    let mut i: usize = 0;
    while i < entries.len()
        invariant
            i <= entries.len(),
            r.len() == i,
            forall|k: int| 0 <= k < i ==> (#[trigger] r.deep_view()[k]) == entries.deep_view()[k],
        decreases entries.len() - i,
    {
        let ghost so_far = r.deep_view();
        r.push((entries[i].0.clone(), entries[i].1.clone()));
        proof {
            let now = r.deep_view();
            assert forall|k: int| 0 <= k <= i implies (#[trigger] now[k])
                == entries.deep_view()[k] by {
                if k < i {
                    assert(now[k] == so_far[k]);
                }
            }
        }
        i += 1;
    }
    assert(r.deep_view() =~= entries.deep_view());
    r
}

/// The album `entry.1` stands under an artist named `entry.0` in `artists`.
pub open spec fn listed(artists: Seq<ArtistView>, entry: EntryView) -> bool {
    exists|a: int|
        0 <= a < artists.len() && (#[trigger] artists[a]).name == entry.0
            && artists[a].albums.contains(entry.1)
}

/// `index` is the album index of `artists`: it holds one entry for each
/// album of each artist and no other, in the strict order of entries.
pub open spec fn is_album_index(index: Seq<EntryView>, artists: Seq<ArtistView>) -> bool {
    &&& forall|i: int, j: int|
        0 <= i < j < index.len() ==> entry_lt(#[trigger] index[i], #[trigger] index[j])
    &&& forall|e: EntryView| #[trigger] index.contains(e) <==> listed(artists, e)
}

} // verus!
