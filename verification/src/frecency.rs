//! How often and how lately items were launched.

use vstd::prelude::*;

use crate::config::{
    base_dir, find_base_dir, join_path, joined_path, law_base_dir, law_joined_path, opt_view,
};
use crate::order::{first_where, lemma_first_where, lemma_first_where_bounds};
use crate::text::same;

verus! {

/// The file that the store is kept in: `.local/share/mofi/frecency.json` in the home
/// directory, unless `XDG_DATA_HOME` names another directory than `.local/share`.
pub open spec fn store_file(home: Seq<char>, xdg_data_home: Option<Seq<char>>) -> Seq<char> {
    let base = base_dir(xdg_data_home, home, ".local/share"@);
    joined_path(joined_path(base, "mofi"@), "frecency.json"@)
}

/// Path of the file that the store is kept in.
pub fn store_path(home: &str, xdg_data_home: Option<&str>) -> (r: String)
    ensures
        r@ == store_file(home@, opt_view(xdg_data_home)),
{
    let base = find_base_dir(xdg_data_home, home, ".local/share");
    let dir = join_path(base.as_str(), "mofi");
    join_path(dir.as_str(), "frecency.json")
}

/// How many launches are kept per item.
pub const MAX_TIMESTAMPS: usize = 100;

/// Launches further back than this, 90 days in seconds, do not count.
pub const MAX_AGE_SECS: u64 = 7776000;

/// The launches of one item.
struct Launches {
    key: String,
    times: Vec<u64>,
}

/// Persistent frecency store, keyed by item display name (app name or pass entry path).
/// Clipboard items are deliberately excluded: their identity changes every paste, so
/// frecency tracking does not apply.
pub struct FrecencyStore {
    data: Vec<Launches>,
}

spec fn has_key(data: Seq<Launches>, key: Seq<char>) -> spec_fn(int) -> bool {
    |i: int| data[i].key@ == key
}

spec fn slot(data: Seq<Launches>, key: Seq<char>) -> int {
    first_where(data.len() as int, has_key(data, key))
}

impl View for FrecencyStore {
    type V = Map<Seq<char>, Seq<u64>>;

    /// From item key to launch timestamps (unix seconds), newest last.
    closed spec fn view(&self) -> Map<Seq<char>, Seq<u64>> {
        Map::new(
            |key: Seq<char>| slot(self.data@, key) < self.data@.len(),
            |key: Seq<char>| self.data@[slot(self.data@, key)].times@,
        )
    }
}

/// The last of the times that are kept.
pub open spec fn pruned(times: Seq<u64>) -> Seq<u64> {
    if times.len() > MAX_TIMESTAMPS {
        times.skip(times.len() - MAX_TIMESTAMPS)
    } else {
        times
    }
}

/// The times recorded of an item.
pub open spec fn times_of(store: Map<Seq<char>, Seq<u64>>, key: Seq<char>) -> Seq<u64> {
    if store.dom().contains(key) {
        store[key]
    } else {
        seq![]
    }
}

/// A store after a launch of an item.
pub open spec fn with_launch(
    store: Map<Seq<char>, Seq<u64>>,
    key: Seq<char>,
    now: u64,
) -> Map<Seq<char>, Seq<u64>> {
    store.insert(key, pruned(times_of(store, key).push(now)))
}

/// The times that are no further back than [`MAX_AGE_SECS`].
pub open spec fn is_recent(time: u64, now: u64) -> bool {
    now - time <= MAX_AGE_SECS
}

/// How far back a time is; a time that is still to come counts as now.
pub open spec fn age(time: u64, now: u64) -> u64 {
    if time <= now {
        (now - time) as u64
    } else {
        0
    }
}

/// How far back the launches are that count.
pub open spec fn recent_ages(times: Seq<u64>, now: u64) -> Seq<u64>
    decreases times.len(),
{
    if times.len() == 0 {
        seq![]
    } else if is_recent(times.last(), now) {
        recent_ages(times.drop_last(), now).push(age(times.last(), now))
    } else {
        recent_ages(times.drop_last(), now)
    }
}

impl Default for FrecencyStore {
    /// An empty store.
    fn default() -> (s: Self)
        ensures
            s.wf(),
            s@ == Map::<Seq<char>, Seq<u64>>::empty(),
    {
        let s = FrecencyStore { data: Vec::new() };
        assert(s@ =~= Map::<Seq<char>, Seq<u64>>::empty()) by {
            assert forall|key: Seq<char>| !s@.dom().contains(key) by {
                lemma_first_where_bounds(0, has_key(s.data@, key));
            }
        }
        s
    }
}

impl FrecencyStore {
    /// No item occurs twice.
    pub closed spec fn wf(&self) -> bool {
        forall|i: int, j: int|
            0 <= i < j < self.data@.len() ==> (#[trigger] self.data@[i]).key@ != (
            #[trigger] self.data@[j]).key@
    }

    fn find(&self, key: &str) -> (i: usize)
        ensures
            i == slot(self.data@, key@),
            i <= self.data.len(),
            i < self.data.len() ==> self.data@[i as int].key@ == key@,
            self@.dom().contains(key@) == (i < self.data@.len()),
            i < self.data@.len() ==> self@[key@] == self.data@[i as int].times@,
    {
        let mut i: usize = 0;
        while i < self.data.len() && !same(self.data[i].key.as_str(), key)
            invariant
                i <= self.data@.len(),
                forall|k: int| 0 <= k < i ==> (#[trigger] self.data@[k]).key@ != key@,
            decreases self.data@.len() - i,
        {
            i = i + 1;
        }
        proof {
            lemma_first_where(self.data@.len() as int, has_key(self.data@, key@), i as int);
        }
        i
    }

    /// Sets the times of an item.
    pub fn set_times(&mut self, key: &str, times: Vec<u64>)
        requires
            old(self).wf(),
        ensures
            final(self).wf(),
            final(self)@ == old(self)@.insert(key@, times@),
    {
        let i = self.find(key);
        let ghost before = self.data@;
        if i < self.data.len() {
            self.data.set(i, Launches { key: key.to_owned(), times });
        } else {
            self.data.push(Launches { key: key.to_owned(), times });
            proof {
                lemma_first_where_bounds(before.len() as int, has_key(before, key@));
                assert forall|k: int| 0 <= k < before.len() implies (
                #[trigger] before[k]).key@ != key@ by {
                    assert(!has_key(before, key@)(k));
                }
            }
        }
        proof {
            let after = self.data@;
            assert(forall|k: int| 0 <= k < before.len() ==> (#[trigger] after[k]).key@ == before[k].key@);
            let want = old(self)@.insert(key@, times@);
            assert forall|x: Seq<char>| #![trigger self@.dom().contains(x)]
                {
                    &&& self@.dom().contains(x) == (x == key@ || old(self)@.dom().contains(x))
                    &&& x == key@ ==> self@[x] == times@
                    &&& x != key@ && old(self)@.dom().contains(x) ==> self@[x] == old(self)@[x]
                } by {
                let n = before.len() as int;
                let m = after.len() as int;
                let b = slot(before, x);
                lemma_first_where_bounds(n, has_key(before, x));
                if x == key@ {
                    assert forall|k: int| 0 <= k < i implies !(#[trigger] has_key(after, x)(k)) by {
                        assert(!has_key(before, x)(k));
                        assert(after[k].key@ == before[k].key@);
                    }
                    lemma_first_where(m, has_key(after, x), i as int);
                } else {
                    let a = if b < n {
                        b
                    } else {
                        m
                    };
                    assert forall|k: int| 0 <= k < a implies !(#[trigger] has_key(after, x)(k)) by {
                        if k < n {
                            assert(!has_key(before, x)(k));
                            assert(after[k].key@ == before[k].key@);
                        }
                    }
                    if b < n {
                        assert(has_key(before, x)(b));
                        assert(after[b].key@ == before[b].key@);
                    }
                    lemma_first_where(m, has_key(after, x), a);
                }
            }
            assert(self@.dom() =~= want.dom());
            assert forall|x: Seq<char>| #[trigger] self@.dom().contains(x) implies self@[x]
                == want[x] by {}
            assert(self@ =~= want);
        }
    }

    /// Records a launch of item `key` at the time `now`.
    pub fn record(&mut self, key: &str, now: u64)
        requires
            old(self).wf(),
        ensures
            final(self).wf(),
            final(self)@ == with_launch(old(self)@, key@, now),
    {
        let mut times = self.times(key);
        times.push(now);
        let ghost all = times@;
        if times.len() > MAX_TIMESTAMPS {
            let start: usize = times.len() - MAX_TIMESTAMPS;
            times = times.split_off(start);
            assert(times@ =~= all.skip(start as int));
        }
        self.set_times(key, times);
    }

    /// The launch times of an item, newest last; none for an unknown one.
    pub fn times(&self, key: &str) -> (r: Vec<u64>)
        ensures
            r@ == times_of(self@, key@),
    {
        let i = self.find(key);
        if i < self.data.len() {
            let r = self.data[i].times.clone();
            assert(r@ =~= self.data@[i as int].times@);
            r
        } else {
            Vec::new()
        }
    }

    /// How far back, in seconds, the launches of an item are that count at the time `now`.
    pub fn ages(&self, key: &str, now: u64) -> (r: Vec<u64>)
        ensures
            r@ == recent_ages(times_of(self@, key@), now),
    {
        let times = self.times(key);
        let mut r: Vec<u64> = Vec::new();
        let mut i: usize = 0;
        assert(r@ =~= recent_ages(times@.take(0), now));
        while i < times.len()
            invariant
                i <= times@.len(),
                r@ == recent_ages(times@.take(i as int), now),
            decreases times@.len() - i,
        {
            assert(times@.take(i as int + 1).drop_last() =~= times@.take(i as int));
            let t: u64 = times[i];
            let back: u64 = if t <= now {
                now - t
            } else {
                0
            };
            if back <= MAX_AGE_SECS {
                r.push(back);
            }
            i = i + 1;
        }
        assert(times@.take(i as int) =~= times@);
        r
    }

    /// The keys of the items in the store.
    pub fn keys(&self) -> (r: Vec<String>)
        requires
            self.wf(),
        ensures
            forall|k: Seq<char>| #[trigger]
                self@.dom().contains(k) == crate::text::texts(r@).contains(k),
            crate::text::texts(r@).no_duplicates(),
    {
        let mut r: Vec<String> = Vec::new();
        let mut i: usize = 0;
        while i < self.data.len()
            invariant
                i <= self.data@.len(),
                r@.len() == i,
                forall|k: int| 0 <= k < i ==> (#[trigger] r@[k])@ == self.data@[k].key@,
            decreases self.data@.len() - i,
        {
            r.push(self.data[i].key.clone());
            i = i + 1;
        }
        proof {
            let t = crate::text::texts(r@);
            assert forall|k: Seq<char>| #[trigger] self@.dom().contains(k) == t.contains(k) by {
                let n = self.data@.len() as int;
                lemma_first_where_bounds(n, has_key(self.data@, k));
                if t.contains(k) {
                    let x = choose|x: int| 0 <= x < t.len() && t[x] == k;
                    assert(r@[x]@ == k);
                    assert(has_key(self.data@, k)(x));
                    crate::order::lemma_first_where_found(n, has_key(self.data@, k), x);
                }
                if self@.dom().contains(k) {
                    let x = slot(self.data@, k);
                    assert(r@[x]@ == self.data@[x].key@);
                    assert(t[x] == k);
                }
            }
            assert forall|x: int, y: int| 0 <= x < y < t.len() implies t[x] != t[y] by {
                assert(r@[x]@ == self.data@[x].key@ && r@[y]@ == self.data@[y].key@);
            }
        }
        r
    }
}

/// A launch is the newest of its item, at most [`MAX_TIMESTAMPS`] are kept, those kept
/// before stay in order, and no other item changes.
pub proof fn law_record(store: Map<Seq<char>, Seq<u64>>, key: Seq<char>, now: u64, other: Seq<char>)
    requires
        other != key,
    ensures
        times_of(with_launch(store, key, now), key).last() == now,
        0 < times_of(with_launch(store, key, now), key).len() <= MAX_TIMESTAMPS,
        times_of(store, key).len() < MAX_TIMESTAMPS ==> times_of(with_launch(store, key, now), key)
            == times_of(store, key).push(now),
        times_of(with_launch(store, key, now), other) == times_of(store, other),
{
}

/// The launches that count are those of the last 90 days, in their order, each with how far
/// back it is; one that is still to come counts as now.
pub proof fn law_recent_ages(times: Seq<u64>, now: u64)
    ensures
        recent_ages(times, now) == times.filter(|t: u64| now - t <= 90 * 24 * 60 * 60).map_values(
            |t: u64|
                if t <= now {
                    (now - t) as u64
                } else {
                    0u64
                },
        ),
    decreases times.len(),
{
    reveal(Seq::filter);
    let keep = |t: u64| now - t <= 90 * 24 * 60 * 60;
    let back = |t: u64|
        if t <= now {
            (now - t) as u64
        } else {
            0u64
        };
    if times.len() > 0 {
        law_recent_ages(times.drop_last(), now);
        let f = times.drop_last().filter(keep);
        assert(f.push(times.last()).map_values(back) =~= f.map_values(back).push(
            back(times.last()),
        ));
    } else {
        assert(recent_ages(times, now) =~= times.filter(keep).map_values(back));
    }
}

/// A launch is put behind the times of its item, of which the last 99 stay.
pub proof fn law_launch_times(store: Map<Seq<char>, Seq<u64>>, key: Seq<char>, now: u64)
    ensures
        ({
            let before = if store.dom().contains(key) {
                store[key]
            } else {
                seq![]
            };
            let after = with_launch(store, key, now);
            &&& after.dom() == store.dom().insert(key)
            &&& after[key] == if before.len() <= 99 {
                before.push(now)
            } else {
                before.skip(before.len() - 99).push(now)
            }
        }),
{
    let before = times_of(store, key);
    if before.len() > 99 {
        assert(pruned(before.push(now)) =~= before.skip(before.len() - 99).push(now));
    }
    assert(with_launch(store, key, now).dom() =~= store.dom().insert(key));
}

/// The store is kept in `mofi` below the directory of data.
pub proof fn law_store_file(home: Seq<char>, dir: Seq<char>)
    requires
        home.len() > 0,
        home.last() != '/',
        dir.len() > 0,
        dir[0] == '/',
        dir.last() != '/',
    ensures
        store_file(home, None) == home + "/.local/share/mofi/frecency.json"@,
        store_file(home, Some(dir)) == dir + "/mofi/frecency.json"@,
{
    reveal_strlit(".local/share");
    reveal_strlit("mofi");
    reveal_strlit("frecency.json");
    reveal_strlit("/.local/share/mofi/frecency.json");
    reveal_strlit("/mofi/frecency.json");
    let usual = home + seq!['/'] + ".local/share"@;
    law_base_dir(home, dir, ".local/share"@);
    assert(usual.last() == 'e');
    law_joined_path(usual, "mofi"@);
    law_joined_path(usual + seq!['/'] + "mofi"@, "frecency.json"@);
    law_joined_path(dir, "mofi"@);
    law_joined_path(dir + seq!['/'] + "mofi"@, "frecency.json"@);
    assert(usual + seq!['/'] + "mofi"@ + seq!['/'] + "frecency.json"@ =~= home
        + "/.local/share/mofi/frecency.json"@);
    assert(dir + seq!['/'] + "mofi"@ + seq!['/'] + "frecency.json"@ =~= dir
        + "/mofi/frecency.json"@);
}

} // verus!
