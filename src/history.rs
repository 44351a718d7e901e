use vstd::prelude::*;
use crate::time::{Timestamp, current_time, from_millis};

verus! {

/// One entry of the prompt history file.
#[derive(Clone, Debug)]
pub struct HistoryEntry {
    pub display: Option<String>,
    /// Milliseconds since the Unix epoch.
    pub timestamp: Option<i64>,
    pub project: Option<String>,
    pub session_id: Option<String>,
}

impl HistoryEntry {
    /// The entry's instant: its timestamp read as milliseconds since the
    /// epoch (see `from_millis`), or the current time where that count lies
    /// outside the dates that can be represented.
    pub fn timestamp_utc(&self) -> (r: Option<Timestamp>)
        ensures
            r is Some <==> self.timestamp is Some,
    {
        match self.timestamp {
            Some(ms) => match from_millis(ms) {
                Some(t) => Some(t),
                None => Some(current_time()),
            },
            None => None,
        }
    }
}

/// Byte strings in lexicographic order: `a` comes strictly before `b`.
pub open spec fn bytes_lt(a: Seq<u8>, b: Seq<u8>) -> bool
    decreases a.len(),
{
    if a.len() == 0 {
        b.len() > 0
    } else if b.len() == 0 {
        false
    } else if a[0] != b[0] {
        a[0] < b[0]
    } else {
        bytes_lt(a.drop_first(), b.drop_first())
    }
}

/// Strings in the order of `str`: by their UTF-8 bytes.
pub open spec fn str_lt(a: Seq<char>, b: Seq<char>) -> bool {
    bytes_lt(vstd::utf8::encode_utf8(a), vstd::utf8::encode_utf8(b))
}

/// Relies on `Ord` for `str`: strings compare lexicographically by their bytes.
#[verifier::external_body]
fn str_less(a: &str, b: &str) -> (r: bool)
    ensures
        r == str_lt(a@, b@),
{
    a < b
}

/// The projects named by the entries, in order, repeats included.
pub open spec fn history_projects(entries: Seq<HistoryEntry>) -> Seq<Seq<char>>
    decreases entries.len(),
{
    if entries.len() == 0 {
        Seq::empty()
    } else {
        let prev = history_projects(entries.drop_last());
        match entries.last().project {
            Some(p) => prev.push(p@),
            None => prev,
        }
    }
}

/// The distinct elements, in the order in which they first appear.
pub open spec fn distinct(s: Seq<Seq<char>>) -> Seq<Seq<char>>
    decreases s.len(),
{
    if s.len() == 0 {
        Seq::empty()
    } else {
        let prev = distinct(s.drop_last());
        if prev.contains(s.last()) {
            prev
        } else {
            prev.push(s.last())
        }
    }
}

/// Where `x` goes in a list in ascending order: after every element that
/// does not come after it.
pub open spec fn asc_position(sorted: Seq<Seq<char>>, x: Seq<char>) -> int
    decreases sorted.len(),
{
    if sorted.len() == 0 {
        0
    } else if str_lt(x, sorted[0]) {
        0
    } else {
        1 + asc_position(sorted.drop_first(), x)
    }
}

/// The strings in ascending order.
pub open spec fn sort_asc(s: Seq<Seq<char>>) -> Seq<Seq<char>>
    decreases s.len(),
{
    if s.len() == 0 {
        Seq::empty()
    } else {
        let sorted = sort_asc(s.drop_last());
        sorted.insert(asc_position(sorted, s.last()), s.last())
    }
}

/// The distinct projects named in the history, in ascending order.
pub fn get_unique_projects(entries: &Vec<HistoryEntry>) -> (r: Vec<String>)
    ensures
        r@.map_values(|s: String| s@) == sort_asc(distinct(history_projects(entries@))),
{
    let mut found: Vec<String> = Vec::new();
    let n = entries.len();
    for i in 0..n
        invariant
            n == entries@.len(),
            found@.map_values(|s: String| s@) == distinct(history_projects(entries@.take(i as int))),
    {
        let ghost before = entries@.take(i as int);
        let ghost next = entries@.take(i + 1);
        assert(next.drop_last() =~= before);
        assert(next.last() == entries@[i as int]);
        let ghost fv = found@.map_values(|s: String| s@);
        match &entries[i].project {
            Some(p) => {
                let ghost prev = history_projects(before);
                assert(history_projects(next) == prev.push(p@));
                assert(prev.push(p@).drop_last() =~= prev);
                let m = found.len();
                let mut j: usize = 0;
                while j < m && !(found[j] == *p)
                    invariant
                        m == found@.len(),
                        0 <= j <= m,
                        forall|k: int| 0 <= k < j ==> found@[k]@ != p@,
                    decreases m - j,
                {
                    j = j + 1;
                }
                if j < m {
                    assert(fv[j as int] == p@);
                } else {
                    assert forall|k: int| 0 <= k < fv.len() implies fv[k] != p@ by {
                        assert(fv[k] == found@[k]@);
                    }
                    found.push(p.clone());
                    assert(found@.map_values(|s: String| s@) =~= fv.push(p@));
                }
            },
            None => {},
        }
    }
    assert(entries@.take(n as int) =~= entries@);
    let ghost items = found@.map_values(|s: String| s@);
    let mut sorted: Vec<String> = Vec::new();
    let m = found.len();
    for i in 0..m
        invariant
            m == found@.len(),
            items == found@.map_values(|s: String| s@),
            sorted@.map_values(|s: String| s@) == sort_asc(items.take(i as int)),
    {
        let ghost sv = sorted@.map_values(|s: String| s@);
        let x = &found[i];
        assert(items.take(i + 1).drop_last() =~= items.take(i as int));
        assert(items.take(i + 1).last() == x@);
        let k = sorted.len();
        let mut j: usize = 0;
        assert(sv.skip(0) =~= sv);
        while j < k && !str_less(x.as_str(), sorted[j].as_str())
            invariant
                k == sorted@.len(),
                sv == sorted@.map_values(|s: String| s@),
                0 <= j <= k,
                asc_position(sv, x@) == j + asc_position(sv.skip(j as int), x@),
            decreases k - j,
        {
            assert(sv.skip(j as int).drop_first() =~= sv.skip(j + 1));
            assert(sv.skip(j as int)[0] == sorted@[j as int]@);
            j = j + 1;
        }
        assert(asc_position(sv, x@) == j) by {
            if j < k {
                assert(sv.skip(j as int)[0] == sorted@[j as int]@);
            }
        }
        sorted.insert(j, x.clone());
        assert(sorted@.map_values(|s: String| s@) =~= sv.insert(j as int, x@));
    }
    assert(items.take(m as int) =~= items);
    sorted
}

} // verus!
