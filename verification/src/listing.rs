//! The classifier's view of the beatmap listing: what it reads of each
//! record, and the filter that decides which records take part.

use vstd::prelude::*;

verus! {

use crate::classify::SkipReason;

/// Game mode of a beatmap; only `Standard` takes part in classification.
#[derive(Clone, Copy, PartialEq, Eq, Structural, Debug)]
pub enum Mode {
    Standard,
    Taiko,
    CatchTheBeat,
    Mania,
}

/// One per-modifier star rating: the modifier combination as bit flags (zero
/// means no modifiers) and the rating in thousandths of a star.
#[derive(Clone, Copy, Debug)]
pub struct StarRating {
    pub mods: u32,
    pub stars_milli: u32,
}

/// What the classifier reads of one listed beatmap. The hash identifies the
/// map; folder and file name locate its file below the library's song
/// directory; the star ratings are the standard-mode ratings, one entry per
/// modifier combination.
pub struct BeatmapRecord {
    pub hash: Option<String>,
    pub folder_name: Option<String>,
    pub file_name: Option<String>,
    pub mode: Mode,
    pub std_ratings: Vec<StarRating>,
}

/// The no-modifier star rating of a record: the first entry whose modifier
/// set is empty, if any.
pub open spec fn nomod_rating(ratings: Seq<StarRating>) -> Option<u32>
    decreases ratings.len(),
{
    if ratings.len() == 0 {
        None
    } else if ratings[0].mods == 0 {
        Some(ratings[0].stars_milli)
    } else {
        nomod_rating(ratings.drop_first())
    }
}

/// Whether a record takes part in classification: it is a Standard-mode map
/// and its no-modifier star rating reaches the threshold. A record without a
/// no-modifier rating passes: ratings are absent until the host application
/// computes them, and not-yet-rated maps are deliberately kept in.
pub open spec fn passes_filter_spec(r: BeatmapRecord, min_star_milli: int) -> bool {
    &&& r.mode == Mode::Standard
    &&& match nomod_rating(r.std_ratings@) {
        None => true,
        Some(s) => s >= min_star_milli,
    }
}

fn nomod_rating_from(ratings: &Vec<StarRating>, i: usize) -> (r: Option<u32>)
    requires
        i <= ratings@.len(),
    ensures
        r == nomod_rating(ratings@.skip(i as int)),
    decreases ratings@.len() - i,
{
    if i == ratings.len() {
        None
    } else {
        let e = ratings[i];
        proof {
            assert(ratings@.skip(i as int)[0] == ratings@[i as int]);
            assert(ratings@.skip(i as int).drop_first() =~= ratings@.skip(i as int + 1));
        }
        if e.mods == 0 {
            Some(e.stars_milli)
        } else {
            nomod_rating_from(ratings, i + 1)
        }
    }
}

/// Decides whether one record takes part in classification.
pub fn passes_filter(r: &BeatmapRecord, min_star_milli: u32) -> (b: bool)
    ensures
        b == passes_filter_spec(*r, min_star_milli as int),
{
    if !(matches!(r.mode, Mode::Standard)) {
        return false;
    }
    proof {
        assert(r.std_ratings@.skip(0) =~= r.std_ratings@);
    }
    match nomod_rating_from(&r.std_ratings, 0) {
        None => true,
        Some(s) => s >= min_star_milli,
    }
}

/// The indices of the records that pass the filter, in listing order.
pub open spec fn filtered_indices(records: Seq<BeatmapRecord>, min_star_milli: int) -> Seq<int>
    decreases records.len(),
{
    if records.len() == 0 {
        Seq::empty()
    } else {
        let prefix = filtered_indices(records.drop_last(), min_star_milli);
        if passes_filter_spec(records.last(), min_star_milli) {
            prefix.push(records.len() - 1)
        } else {
            prefix
        }
    }
}

/// Filters the listing: returns the indices of the records that take part in
/// classification, in listing order.
pub fn filter_records(records: &Vec<BeatmapRecord>, min_star_milli: u32) -> (idx: Vec<usize>)
    ensures
        idx@.map_values(|u: usize| u as int) == filtered_indices(records@, min_star_milli as int),
{
    let mut idx: Vec<usize> = Vec::new();
    let n = records.len();
    let mut i: usize = 0;
    while i < n
        invariant
            n == records@.len(),
            0 <= i <= n,
            idx@.map_values(|u: usize| u as int) == filtered_indices(
                records@.take(i as int),
                min_star_milli as int,
            ),
        decreases n - i,
    {
        let ghost pre = records@.take(i as int);
        proof {
            assert(records@.take(i as int + 1).drop_last() =~= pre);
            assert(records@.take(i as int + 1).last() == records@[i as int]);
        }
        if passes_filter(&records[i], min_star_milli) {
            idx.push(i);
            proof {
                assert(idx@.map_values(|u: usize| u as int) =~= idx@.drop_last().map_values(
                    |u: usize| u as int,
                ).push(i as int));
            }
        }
        i += 1;
    }
    proof {
        assert(records@.take(n as int) =~= records@);
    }
    idx
}

/// Resolves the location of a record's map file below the song directory:
/// its folder name and file name. Either being absent is a recoverable
/// per-record error; the record is then skipped, never the whole batch.
pub fn record_path(r: &BeatmapRecord) -> (p: Result<(String, String), SkipReason>)
    ensures
        match (r.folder_name, r.file_name) {
            (Some(folder), Some(file)) => p matches Ok(q) && q.0 == folder && q.1 == file,
            _ => p == Err::<(String, String), SkipReason>(SkipReason::PathMissing),
        },
{
    match (&r.folder_name, &r.file_name) {
        (Some(folder), Some(file)) => Ok((folder.clone(), file.clone())),
        _ => Err(SkipReason::PathMissing),
    }
}

} // verus!
