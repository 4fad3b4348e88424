//! Picking the most recently created file of a directory listing.
use vstd::prelude::*;

verus! {

/// One entry of a directory listing, as far as choosing the newest file needs.
pub struct FileInfo {
    /// The entry is a regular file.
    pub is_file: bool,
    /// When the entry was created, in nanoseconds after the Unix epoch
    /// (negative before it); `None` where the entry, its metadata or its
    /// creation time could not be read.
    pub created: Option<i128>,
}

/// The entry takes part in the choice: a file whose creation time is known.
pub open spec fn is_candidate(e: FileInfo) -> bool {
    e.is_file && e.created is Some
}

/// The creation time of a candidate.
pub open spec fn created_at(e: FileInfo) -> i128 {
    e.created.unwrap()
}

/// The index that `max_by_key` on the creation time picks among the
/// candidates of `s`, going through `s` in order: a later candidate
/// replaces the current pick when it was created no earlier.
pub open spec fn newest(s: Seq<FileInfo>) -> Option<int>
    decreases s.len(),
{
    if s.len() == 0 {
        None
    } else {
        let prev = newest(s.drop_last());
        let i = s.len() - 1;
        if is_candidate(s[i]) && (prev is None || created_at(s[prev.unwrap()]) <= created_at(s[i])) {
            Some(i)
        } else {
            prev
        }
    }
}

/// The index of the most recently created file among `entries`; the last
/// such file when several share the latest time; `None` where no entry is a
/// file with a known creation time.
pub fn newest_file(entries: &Vec<FileInfo>) -> (r: Option<usize>)
    ensures
        match newest(entries@) {
            None => r is None,
            Some(i) => r == Some(i as usize),
        },
{
    let mut best: Option<usize> = None;
    let mut best_time: i128 = 0;
    let mut k: usize = 0;
    while k < entries.len()
        invariant
            k <= entries@.len(),
            match newest(entries@.take(k as int)) {
                None => best is None,
                Some(i) => best == Some(i as usize) && 0 <= i < k && best_time == created_at(entries@[i]),
            },
        decreases entries@.len() - k,
    {
        assert(entries@.take(k + 1).drop_last() =~= entries@.take(k as int));
        let e = &entries[k];
        if e.is_file {
            match e.created {
                Some(t) => {
                    if best.is_none() || best_time <= t {
                        best = Some(k);
                        best_time = t;
                    }
                },
                None => {},
            }
        }
        k = k + 1;
    }
    assert(entries@.take(entries@.len() as int) =~= entries@);
    best
}

/// What `newest` picks is a candidate created no earlier than any other, and
/// created later than every candidate after it: the last of the latest files.
pub proof fn lemma_newest_is_last_latest(s: Seq<FileInfo>)
    ensures
        newest(s) is None <==> (forall|j: int| 0 <= j < s.len() ==> !is_candidate(#[trigger] s[j])),
        newest(s) matches Some(i) ==> {
            &&& 0 <= i < s.len()
            &&& is_candidate(s[i])
            &&& forall|j: int|
                0 <= j < s.len() && is_candidate(#[trigger] s[j]) ==> created_at(s[j]) <= created_at(s[i])
            &&& forall|j: int|
                i < j < s.len() && is_candidate(#[trigger] s[j]) ==> created_at(s[j]) < created_at(s[i])
        },
    decreases s.len(),
{
    if s.len() > 0 {
        let t = s.drop_last();
        lemma_newest_is_last_latest(t);
        let n = s.len() - 1;
        assert forall|j: int| 0 <= j < t.len() implies #[trigger] s[j] == t[j] by {}
        let prev = newest(t);
        if is_candidate(s[n]) && (prev is None || created_at(s[prev.unwrap()]) <= created_at(s[n])) {
            assert(newest(s) == Some(n));
            assert forall|j: int| 0 <= j < s.len() && is_candidate(#[trigger] s[j]) implies created_at(
                s[j],
            ) <= created_at(s[n]) by {
                if j < n {
                    assert(t[j] == s[j]);
                    assert(is_candidate(t[j]));
                }
            }
        } else {
            assert(newest(s) == prev);
            if prev is None {
                assert(!is_candidate(s[n]));
                assert forall|j: int| 0 <= j < s.len() implies !is_candidate(#[trigger] s[j]) by {
                    if j < n {
                        assert(t[j] == s[j]);
                    }
                }
            } else {
                let i = prev.unwrap();
                assert(is_candidate(s[i]));
                assert forall|j: int| 0 <= j < s.len() && is_candidate(#[trigger] s[j]) implies created_at(
                    s[j],
                ) <= created_at(s[i]) by {
                    if j < n {
                        assert(t[j] == s[j]);
                    }
                }
                assert forall|j: int| i < j < s.len() && is_candidate(#[trigger] s[j]) implies created_at(
                    s[j],
                ) < created_at(s[i]) by {
                    if j < n {
                        assert(t[j] == s[j]);
                    }
                }
            }
        }
    }
}

} // verus!
