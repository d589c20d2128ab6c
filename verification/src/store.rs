//! The pairing store: one audio identity for each video identity.

use vstd::prelude::*;

verus! {

/// One pairing: a video identity and the audio identity that goes with it.
#[derive(Debug)]
pub struct PairEntry {
    pub video_identity: String,
    pub audio_identity: String,
}

impl View for PairEntry {
    type V = (Seq<char>, Seq<char>);

    open spec fn view(&self) -> (Seq<char>, Seq<char>) {
        (self.video_identity@, self.audio_identity@)
    }
}

/// The mapping that gives each of `keys` the value at its position.
pub open spec fn pairing(keys: Seq<Seq<char>>, values: Seq<Seq<char>>) -> Map<
    Seq<char>,
    Seq<char>,
> {
    Map::new(|k: Seq<char>| keys.contains(k), |k: Seq<char>| values[keys.index_of(k)])
}

/// Where no key occurs twice, the mapping gives each key the value at its
/// position.
pub proof fn lemma_pairing_at(keys: Seq<Seq<char>>, values: Seq<Seq<char>>, i: int)
    requires
        keys.no_duplicates(),
        0 <= i < keys.len(),
    ensures
        pairing(keys, values).dom().contains(keys[i]),
        pairing(keys, values)[keys[i]] == values[i],
{
    assert(keys.contains(keys[i]));
    let j = keys.index_of(keys[i]);
    assert(0 <= j < keys.len() && keys[j] == keys[i]);
}

/// Taking one more key into the mapping is an insertion, where the key is new.
pub proof fn lemma_pairing_push(keys: Seq<Seq<char>>, values: Seq<Seq<char>>, i: int)
    requires
        keys.no_duplicates(),
        keys.len() == values.len(),
        0 <= i < keys.len(),
    ensures
        pairing(keys.take(i + 1), values.take(i + 1)) == pairing(
            keys.take(i),
            values.take(i),
        ).insert(keys[i], values[i]),
        !pairing(keys.take(i), values.take(i)).dom().contains(keys[i]),
{
    let small = pairing(keys.take(i), values.take(i));
    let large = pairing(keys.take(i + 1), values.take(i + 1));
    assert(keys.take(i + 1).no_duplicates());
    assert(keys.take(i).no_duplicates());
    if keys.take(i).contains(keys[i]) {
        let j = keys.take(i).index_of(keys[i]);
        assert(keys[j] == keys[i]);
    }
    assert forall|k: Seq<char>| large.dom().contains(k) == small.insert(
        keys[i],
        values[i],
    ).dom().contains(k) by {
        if keys.take(i + 1).contains(k) {
            let j = keys.take(i + 1).index_of(k);
            if j < i {
                assert(keys.take(i)[j] == k);
            }
        }
        if keys.take(i).contains(k) {
            let j = keys.take(i).index_of(k);
            assert(keys.take(i + 1)[j] == k);
        }
        assert(keys.take(i + 1)[i] == keys[i]);
    }
    assert forall|k: Seq<char>| large.dom().contains(k) implies large[k] == small.insert(
        keys[i],
        values[i],
    )[k] by {
        let j = keys.take(i + 1).index_of(k);
        assert(keys.take(i + 1)[j] == k);
        lemma_pairing_at(keys.take(i + 1), values.take(i + 1), j);
        if j < i {
            assert(keys.take(i)[j] == k);
            lemma_pairing_at(keys.take(i), values.take(i), j);
        }
    }
    assert(large =~= small.insert(keys[i], values[i]));
}

/// The mapping that comes of putting the keys in one after the other, each
/// with the value at its position: of a key that occurs twice the later value
/// stays.
pub open spec fn gathered(keys: Seq<Seq<char>>, values: Seq<Seq<char>>) -> Map<
    Seq<char>,
    Seq<char>,
>
    decreases keys.len(),
{
    if keys.len() == 0 {
        Map::empty()
    } else {
        gathered(keys.drop_last(), values.drop_last()).insert(keys.last(), values.last())
    }
}

/// Where no key occurs twice, putting the keys in one after the other gives
/// each key the value at its position.
pub proof fn lemma_gathered_pairing(keys: Seq<Seq<char>>, values: Seq<Seq<char>>)
    requires
        keys.no_duplicates(),
        keys.len() == values.len(),
    ensures
        gathered(keys, values) == pairing(keys, values),
    decreases keys.len(),
{
    if keys.len() == 0 {
        assert(pairing(keys, values) =~= Map::<Seq<char>, Seq<char>>::empty());
    } else {
        let n = keys.len() - 1;
        lemma_gathered_pairing(keys.drop_last(), values.drop_last());
        lemma_pairing_push(keys, values, n);
        assert(keys.take(n) =~= keys.drop_last());
        assert(values.take(n) =~= values.drop_last());
        assert(keys.take(n + 1) =~= keys);
        assert(values.take(n + 1) =~= values);
    }
}

/// Without the key at position `i`, the mapping is without that key.
pub proof fn lemma_pairing_remove(keys: Seq<Seq<char>>, values: Seq<Seq<char>>, i: int)
    requires
        keys.no_duplicates(),
        keys.len() == values.len(),
        0 <= i < keys.len(),
    ensures
        pairing(keys.remove(i), values.remove(i)) == pairing(keys, values).remove(keys[i]),
        keys.remove(i).no_duplicates(),
{
    let small_keys = keys.remove(i);
    let small_values = values.remove(i);
    let small = pairing(small_keys, small_values);
    let large = pairing(keys, values).remove(keys[i]);
    assert forall|a: int| 0 <= a < small_keys.len() implies small_keys[a] == keys[if a < i {
        a
    } else {
        a + 1
    }] && small_values[a] == values[if a < i {
        a
    } else {
        a + 1
    }] by {}
    assert(small_keys.no_duplicates());
    assert forall|k: Seq<char>| small.dom().contains(k) == large.dom().contains(k) by {
        if small_keys.contains(k) {
            let a = small_keys.index_of(k);
            assert(small_keys[a] == k);
            assert(keys.contains(k));
        }
        if keys.contains(k) && k != keys[i] {
            let b = keys.index_of(k);
            assert(keys[b] == k);
            let a = if b < i {
                b
            } else {
                b - 1
            };
            assert(small_keys[a] == k);
        }
    }
    assert forall|k: Seq<char>| small.dom().contains(k) implies small[k] == large[k] by {
        let a = small_keys.index_of(k);
        assert(small_keys[a] == k);
        lemma_pairing_at(small_keys, small_values, a);
        let b = if a < i {
            a
        } else {
            a + 1
        };
        lemma_pairing_at(keys, values, b);
    }
    assert(small =~= large);
}

/// The video identities of `entries`, in order.
pub open spec fn entry_keys(entries: Seq<PairEntry>) -> Seq<Seq<char>> {
    Seq::new(entries.len(), |i: int| entries[i].video_identity@)
}

/// The audio identities of `entries`, in order.
pub open spec fn entry_values(entries: Seq<PairEntry>) -> Seq<Seq<char>> {
    Seq::new(entries.len(), |i: int| entries[i].audio_identity@)
}

/// The mapping from video identity to audio identity. No video identity occurs
/// twice; the identities are enumerated in the order in which they came in.
pub struct PairingStore {
    entries: Vec<PairEntry>,
}

impl View for PairingStore {
    type V = Map<Seq<char>, Seq<char>>;

    open spec fn view(&self) -> Map<Seq<char>, Seq<char>> {
        pairing(self.keys(), self.values())
    }
}

impl PairingStore {
    #[verifier::type_invariant]
    spec fn distinct(&self) -> bool {
        forall|i: int, j: int|
            0 <= i < j < self.entries@.len() ==> self.entries@[i].video_identity@ != self.entries@[j].video_identity@
    }

    /// The video identities, in enumeration order.
    pub closed spec fn keys(&self) -> Seq<Seq<char>> {
        Seq::new(self.entries@.len(), |i: int| self.entries@[i].video_identity@)
    }

    /// The audio identities, each at the position of its video identity.
    pub closed spec fn values(&self) -> Seq<Seq<char>> {
        Seq::new(self.entries@.len(), |i: int| self.entries@[i].audio_identity@)
    }

    /// What holds of every store: the keys and the values go by pairs, and no
    /// key occurs twice.
    pub open spec fn consistent(&self) -> bool {
        &&& self.keys().len() == self.values().len()
        &&& self.keys().no_duplicates()
    }

    /// An empty store.
    pub fn new() -> (r: Self)
        ensures
            r.keys() == Seq::<Seq<char>>::empty(),
            r.values() == Seq::<Seq<char>>::empty(),
            r@ == Map::<Seq<char>, Seq<char>>::empty(),
    {
        let r = PairingStore { entries: Vec::new() };
        assert(r.keys() =~= Seq::<Seq<char>>::empty());
        assert(r.values() =~= Seq::<Seq<char>>::empty());
        assert(r@ =~= Map::<Seq<char>, Seq<char>>::empty());
        r
    }

    /// The store that comes of putting `entries` in one after the other.
    pub fn from_entries(entries: Vec<PairEntry>) -> (r: Self)
        ensures
            r@ == gathered(entry_keys(entries@), entry_values(entries@)),
    {
        let ghost keys = entry_keys(entries@);
        let ghost values = entry_values(entries@);
        let mut r = PairingStore::new();
        let mut i: usize = 0;
        assert(keys.take(0) =~= Seq::<Seq<char>>::empty());
        while i < entries.len()
            invariant
                keys == entry_keys(entries@),
                values == entry_values(entries@),
                i <= entries.len(),
                r@ == gathered(keys.take(i as int), values.take(i as int)),
            decreases entries.len() - i,
        {
            proof {
                assert(keys.take(i + 1).drop_last() =~= keys.take(i as int));
                assert(values.take(i + 1).drop_last() =~= values.take(i as int));
                assert(keys.take(i + 1).last() == entries@[i as int].video_identity@);
                assert(values.take(i + 1).last() == entries@[i as int].audio_identity@);
            }
            r.insert(entries[i].video_identity.clone(), entries[i].audio_identity.clone());
            i = i + 1;
        }
        proof {
            assert(keys.take(entries.len() as int) =~= keys);
            assert(values.take(entries.len() as int) =~= values);
        }
        r
    }

    /// The pairings, in enumeration order.
    pub fn entries(&self) -> (r: &Vec<PairEntry>)
        ensures
            entry_keys(r@) == self.keys(),
            entry_values(r@) == self.values(),
            self.consistent(),
    {
        proof {
            use_type_invariant(self);
            assert(entry_keys(self.entries@) =~= self.keys());
            assert(entry_values(self.entries@) =~= self.values());
        }
        &self.entries
    }

    /// The number of pairings.
    pub fn len(&self) -> (n: usize)
        ensures
            n == self.keys().len(),
            n == self@.dom().len(),
            self@.dom().finite(),
            self.consistent(),
    {
        proof {
            use_type_invariant(self);
            self.keys().unique_seq_to_set();
            assert(self@.dom() =~= self.keys().to_set());
        }
        self.entries.len()
    }

    /// The position of `video` among the keys, if it is one.
    fn position(&self, video: &String) -> (r: Option<usize>)
        ensures
            self.consistent(),
            match r {
                Some(i) => i < self.keys().len() && self.keys()[i as int] == video@,
                None => !self.keys().contains(video@),
            },
    {
        proof {
            use_type_invariant(self);
        }
        assert(self.consistent());
        let mut i: usize = 0;
        while i < self.entries.len()
            invariant
                self.consistent(),
                i <= self.entries@.len(),
                forall|k: int| 0 <= k < i ==> self.entries@[k].video_identity@ != video@,
            decreases self.entries@.len() - i,
        {
            if self.entries[i].video_identity == *video {
                return Some(i);
            }
            i = i + 1;
        }
        None
    }

    /// Moves the entries out and leaves the store empty.
    fn take_entries(&mut self) -> (entries: Vec<PairEntry>)
        ensures
            entries == old(self).entries,
            final(self).entries@.len() == 0,
    {
        let mut taken = PairingStore { entries: Vec::new() };
        std::mem::swap(self, &mut taken);
        taken.entries
    }

    /// Whether `video` has a pairing.
    pub fn contains(&self, video: &str) -> (r: bool)
        ensures
            r == self@.dom().contains(video@),
    {
        let key: String = video.to_owned();
        self.position(&key).is_some()
    }

    /// The audio identity paired with `video`, if there is one.
    pub fn get(&self, video: &str) -> (r: Option<String>)
        ensures
            match r {
                Some(audio) => self@.dom().contains(video@) && audio@ == self@[video@],
                None => !self@.dom().contains(video@),
            },
    {
        let key: String = video.to_owned();
        match self.position(&key) {
            Some(i) => {
                proof {
                    lemma_pairing_at(self.keys(), self.values(), i as int);
                }
                Some(self.entries[i].audio_identity.clone())
            },
            None => None,
        }
    }

    /// The video identity at position `i` of the enumeration.
    pub fn video_at(&self, i: usize) -> (r: String)
        requires
            i < self.keys().len(),
        ensures
            r@ == self.keys()[i as int],
            self@.dom().contains(r@),
    {
        proof {
            use_type_invariant(self);
            lemma_pairing_at(self.keys(), self.values(), i as int);
        }
        self.entries[i].video_identity.clone()
    }

    /// The audio identity at position `i` of the enumeration.
    pub fn audio_at(&self, i: usize) -> (r: String)
        requires
            i < self.keys().len(),
        ensures
            r@ == self.values()[i as int],
            r@ == self@[self.keys()[i as int]],
    {
        proof {
            use_type_invariant(self);
            lemma_pairing_at(self.keys(), self.values(), i as int);
        }
        self.entries[i].audio_identity.clone()
    }

    /// Pairs `video` with `audio`, in place of the pairing that `video` had.
    pub fn insert(&mut self, video: String, audio: String)
        ensures
            final(self)@ == old(self)@.insert(video@, audio@),
            old(self).keys().contains(video@) ==> final(self).keys() == old(self).keys()
                && final(self).values() == old(self).values().update(
                old(self).keys().index_of(video@),
                audio@,
            ),
            !old(self).keys().contains(video@) ==> final(self).keys() == old(self).keys().push(
                video@,
            ) && final(self).values() == old(self).values().push(audio@),
            final(self).consistent(),
    {
        let ghost before = *self;
        proof {
            use_type_invariant(&*self);
        }
        let found = self.position(&video);
        match found {
            Some(i) => {
                let entry = PairEntry { video_identity: video, audio_identity: audio };
                let mut entries = self.take_entries();
                entries.set(i, entry);
                proof {
                    assert(before.keys()[i as int] == video@);
                    assert forall|a: int, b: int| 0 <= a < b < entries@.len() implies entries@[a].video_identity@
                        != entries@[b].video_identity@ by {
                        assert(entries@[a].video_identity@ == before.entries@[a].video_identity@);
                        assert(entries@[b].video_identity@ == before.entries@[b].video_identity@);
                    }
                }
                self.entries = entries;
                proof {
                    assert(self.keys() =~= before.keys());
                    assert(before.keys().index_of(video@) == i as int);
                    assert(self.values() =~= before.values().update(i as int, audio@));
                    assert forall|k: Seq<char>|
                        self@.dom().contains(k) == before@.insert(video@, audio@).dom().contains(
                            k,
                        ) by {}
                    assert forall|k: Seq<char>| self@.dom().contains(k) implies self@[k]
                        == before@.insert(video@, audio@)[k] by {
                        let j = self.keys().index_of(k);
                        assert(self.keys().contains(k));
                    }
                    assert(self@ =~= before@.insert(video@, audio@));
                }
            },
            None => {
                let entry = PairEntry { video_identity: video, audio_identity: audio };
                let mut entries = self.take_entries();
                entries.push(entry);
                proof {
                    assert forall|a: int, b: int| 0 <= a < b < entries@.len() implies entries@[a].video_identity@
                        != entries@[b].video_identity@ by {
                        assert(entries@[a].video_identity@ == before.keys()[a]);
                        if b < before.entries@.len() {
                            assert(entries@[b].video_identity@ == before.entries@[b].video_identity@);
                        } else {
                            assert(before.keys().contains(before.keys()[a]));
                        }
                    }
                }
                self.entries = entries;
                proof {
                    assert(self.keys() =~= before.keys().push(video@));
                    assert(self.values() =~= before.values().push(audio@));
                    assert(self.keys()[before.keys().len() as int] == video@);
                    assert forall|k: Seq<char>|
                        self@.dom().contains(k) == before@.insert(video@, audio@).dom().contains(
                            k,
                        ) by {
                        if before.keys().contains(k) {
                            let j = before.keys().index_of(k);
                            assert(self.keys()[j] == k);
                        }
                        if self.keys().contains(k) && k != video@ {
                            let j = self.keys().index_of(k);
                            assert(before.keys()[j] == k);
                        }
                    }
                    assert forall|k: Seq<char>| self@.dom().contains(k) implies self@[k]
                        == before@.insert(video@, audio@)[k] by {
                        let j = self.keys().index_of(k);
                        if k == video@ {
                            lemma_pairing_at(self.keys(), self.values(), before.keys().len() as int);
                        } else {
                            assert(before.keys()[j] == k);
                            lemma_pairing_at(before.keys(), before.values(), j);
                            lemma_pairing_at(self.keys(), self.values(), j);
                        }
                    }
                    assert(self@ =~= before@.insert(video@, audio@));
                }
            },
        }
    }

    /// Takes the pairing of `video` out, and gives the audio identity that it
    /// had.
    pub fn remove(&mut self, video: &str) -> (r: Option<String>)
        ensures
            final(self)@ == old(self)@.remove(video@),
            match r {
                Some(audio) => old(self)@.dom().contains(video@) && audio@ == old(self)@[video@]
                    && final(self).keys() == old(self).keys().remove(
                    old(self).keys().index_of(video@),
                ) && final(self).values() == old(self).values().remove(
                    old(self).keys().index_of(video@),
                ),
                None => !old(self)@.dom().contains(video@) && final(self).keys() == old(self).keys() && final(self).values() == old(self).values(),
            },
            final(self).consistent(),
    {
        let ghost before = *self;
        proof {
            use_type_invariant(&*self);
        }
        let key: String = video.to_owned();
        match self.position(&key) {
            Some(i) => {
                let mut entries = self.take_entries();
                let entry = entries.remove(i);
                proof {
                    lemma_pairing_at(before.keys(), before.values(), i as int);
                    lemma_pairing_remove(before.keys(), before.values(), i as int);
                    assert(before.keys().index_of(video@) == i as int);
                    assert forall|a: int, b: int| 0 <= a < b < entries@.len() implies entries@[a].video_identity@
                        != entries@[b].video_identity@ by {
                        assert(entries@[a] == before.entries@[if a < i {
                            a
                        } else {
                            a + 1
                        }]);
                        assert(entries@[b] == before.entries@[if b < i {
                            b
                        } else {
                            b + 1
                        }]);
                    }
                }
                self.entries = entries;
                proof {
                    assert(self.keys() =~= before.keys().remove(i as int));
                    assert(self.values() =~= before.values().remove(i as int));
                }
                Some(entry.audio_identity)
            },
            None => {
                assert(self@ =~= before@.remove(video@));
                None
            },
        }
    }

    /// A copy of the store, for a caller that must not see later changes.
    pub fn snapshot(&self) -> (r: Self)
        ensures
            r.keys() == self.keys(),
            r.values() == self.values(),
            r@ == self@,
    {
        proof {
            use_type_invariant(self);
        }
        let mut entries: Vec<PairEntry> = Vec::new();
        let mut i: usize = 0;
        while i < self.entries.len()
            invariant
                i <= self.entries@.len(),
                entries@.len() == i,
                forall|k: int| 0 <= k < i ==> entries@[k]@ == self.entries@[k]@,
            decreases self.entries@.len() - i,
        {
            let entry = PairEntry {
                video_identity: self.entries[i].video_identity.clone(),
                audio_identity: self.entries[i].audio_identity.clone(),
            };
            entries.push(entry);
            i = i + 1;
        }
        let r = PairingStore { entries };
        assert(r.keys() =~= self.keys());
        assert(r.values() =~= self.values());
        r
    }

    /// Takes every pairing out.
    pub fn clear(&mut self)
        ensures
            final(self).keys() == Seq::<Seq<char>>::empty(),
            final(self).values() == Seq::<Seq<char>>::empty(),
            final(self)@ == Map::<Seq<char>, Seq<char>>::empty(),
    {
        self.entries = Vec::new();
        assert(self.keys() =~= Seq::<Seq<char>>::empty());
        assert(self.values() =~= Seq::<Seq<char>>::empty());
        assert(self@ =~= Map::<Seq<char>, Seq<char>>::empty());
    }
}

} // verus!
