//! The media data: the pairing store with its roots, the catalog derived from
//! it, and the playback controller.

use crate::catalog::{arrange, arranged, before, listing, sorted_listing};
use crate::document::{json_object, json_pretty, read_document, write_document, LoadError, SaveError};
use crate::media_player::{after_play, play_plan, MediaPlayer, PlayerAction, PlayerView};
use crate::paths::{
    lemma_located_relative, locate, located, relative, relative_to, storable,
};
use crate::store::{lemma_pairing_push, pairing, PairingStore};
use crate::text::{chars_of, copy_texts, listed};
use vstd::prelude::*;

verus! {

/// The order of the catalog.
#[derive(Debug, Clone, Copy, PartialEq, Eq, Structural)]
pub enum Sorting {
    Ascending,
    Descending,
    Mtime,
}

/// Why the catalog could not be listed.
#[derive(Debug, Clone, Copy, PartialEq, Eq, Structural)]
pub enum CatalogError {
    /// The modification time of a video file could not be read.
    MissingFile,
}

/// The entry `k` of `src` is carried over and lands on the key `loc`.
pub open spec fn has_source(
    src: Map<Seq<char>, Seq<char>>,
    key_of: spec_fn(Seq<char>) -> Seq<char>,
    keep: spec_fn(Seq<char>) -> bool,
    k: Seq<char>,
    loc: Seq<char>,
) -> bool {
    src.dom().contains(k) && keep(k) && key_of(k) == loc
}

/// `out` is `base` with the entries of `src` that `keep` admits put on top,
/// each under the key that `key_of` gives it and with the value that
/// `value_of` gives it. Where several entries land on one key, `out` holds one
/// of them.
pub open spec fn carried(
    src: Map<Seq<char>, Seq<char>>,
    base: Map<Seq<char>, Seq<char>>,
    out: Map<Seq<char>, Seq<char>>,
    key_of: spec_fn(Seq<char>) -> Seq<char>,
    value_of: spec_fn(Seq<char>) -> Seq<char>,
    keep: spec_fn(Seq<char>) -> bool,
) -> bool {
    &&& forall|loc: Seq<char>| #[trigger]
        out.dom().contains(loc) <==> (base.dom().contains(loc) || exists|k: Seq<char>|
            has_source(src, key_of, keep, k, loc))
    &&& forall|loc: Seq<char>| #[trigger]
        out.dom().contains(loc) ==> ((exists|k: Seq<char>|
            has_source(src, key_of, keep, k, loc) && out[loc] == value_of(src[k])) || (!(exists|
            k: Seq<char>,
        |
            has_source(src, key_of, keep, k, loc)) && out[loc] == base[loc]))
}

/// Nothing carried leaves the base as it is.
pub proof fn lemma_carry_none(
    base: Map<Seq<char>, Seq<char>>,
    key_of: spec_fn(Seq<char>) -> Seq<char>,
    value_of: spec_fn(Seq<char>) -> Seq<char>,
    keep: spec_fn(Seq<char>) -> bool,
)
    ensures
        carried(Map::<Seq<char>, Seq<char>>::empty(), base, base, key_of, value_of, keep),
{
}

/// Carrying one more entry is an insertion where the entry is admitted, and
/// changes nothing where it is not.
pub proof fn lemma_carry_step(
    src: Map<Seq<char>, Seq<char>>,
    base: Map<Seq<char>, Seq<char>>,
    out: Map<Seq<char>, Seq<char>>,
    key_of: spec_fn(Seq<char>) -> Seq<char>,
    value_of: spec_fn(Seq<char>) -> Seq<char>,
    keep: spec_fn(Seq<char>) -> bool,
    k: Seq<char>,
    v: Seq<char>,
)
    requires
        carried(src, base, out, key_of, value_of, keep),
        !src.dom().contains(k),
    ensures
        keep(k) ==> carried(
            src.insert(k, v),
            base,
            out.insert(key_of(k), value_of(v)),
            key_of,
            value_of,
            keep,
        ),
        !keep(k) ==> carried(src.insert(k, v), base, out, key_of, value_of, keep),
{
    let src2 = src.insert(k, v);
    assert forall|k0: Seq<char>, loc: Seq<char>|
        has_source(src, key_of, keep, k0, loc) implies #[trigger] has_source(
        src2,
        key_of,
        keep,
        k0,
        loc,
    ) && src2[k0] == src[k0] by {}
    assert forall|k0: Seq<char>, loc: Seq<char>| #[trigger]
        has_source(src2, key_of, keep, k0, loc) implies has_source(src, key_of, keep, k0, loc) || (k0
        == k && keep(k) && key_of(k) == loc) by {}
    if keep(k) {
        let at = key_of(k);
        let out2 = out.insert(at, value_of(v));
        assert(has_source(src2, key_of, keep, k, at));
        assert forall|loc: Seq<char>| #[trigger]
            out2.dom().contains(loc) <==> (base.dom().contains(loc) || exists|k0: Seq<char>|
                has_source(src2, key_of, keep, k0, loc)) by {
            if out2.dom().contains(loc) && loc != at {
                assert(out.dom().contains(loc));
                if !base.dom().contains(loc) {
                    let k0 = choose|k0: Seq<char>| has_source(src, key_of, keep, k0, loc);
                    assert(has_source(src2, key_of, keep, k0, loc));
                }
            }
            if exists|k0: Seq<char>| has_source(src2, key_of, keep, k0, loc) {
                let k0 = choose|k0: Seq<char>| has_source(src2, key_of, keep, k0, loc);
                if loc != at {
                    assert(has_source(src, key_of, keep, k0, loc));
                    assert(out.dom().contains(loc));
                }
            }
            if base.dom().contains(loc) {
                assert(out.dom().contains(loc));
            }
        }
        assert forall|loc: Seq<char>| #[trigger] out2.dom().contains(loc) implies ((exists|
            k0: Seq<char>,
        |
            has_source(src2, key_of, keep, k0, loc) && out2[loc] == value_of(src2[k0])) || (!(
        exists|k0: Seq<char>| has_source(src2, key_of, keep, k0, loc)) && out2[loc]
            == base[loc])) by {
            if loc == at {
                assert(has_source(src2, key_of, keep, k, loc) && out2[loc] == value_of(src2[k]));
            } else {
                assert(out.dom().contains(loc));
                if exists|k0: Seq<char>|
                    has_source(src, key_of, keep, k0, loc) && out[loc] == value_of(src[k0]) {
                    let k0 = choose|k0: Seq<char>|
                        has_source(src, key_of, keep, k0, loc) && out[loc] == value_of(src[k0]);
                    assert(has_source(src2, key_of, keep, k0, loc) && out2[loc] == value_of(
                        src2[k0],
                    ));
                } else {
                    if exists|k0: Seq<char>| has_source(src2, key_of, keep, k0, loc) {
                        let k0 = choose|k0: Seq<char>| has_source(src2, key_of, keep, k0, loc);
                        assert(has_source(src, key_of, keep, k0, loc));
                    }
                }
            }
        }
    } else {
        assert forall|loc: Seq<char>| #[trigger]
            out.dom().contains(loc) <==> (base.dom().contains(loc) || exists|k0: Seq<char>|
                has_source(src2, key_of, keep, k0, loc)) by {
            if out.dom().contains(loc) && !base.dom().contains(loc) {
                let k0 = choose|k0: Seq<char>| has_source(src, key_of, keep, k0, loc);
                assert(has_source(src2, key_of, keep, k0, loc));
            }
            if exists|k0: Seq<char>| has_source(src2, key_of, keep, k0, loc) {
                let k0 = choose|k0: Seq<char>| has_source(src2, key_of, keep, k0, loc);
                assert(has_source(src, key_of, keep, k0, loc));
            }
        }
        assert forall|loc: Seq<char>| #[trigger] out.dom().contains(loc) implies ((exists|
            k0: Seq<char>,
        |
            has_source(src2, key_of, keep, k0, loc) && out[loc] == value_of(src2[k0])) || (!(
        exists|k0: Seq<char>| has_source(src2, key_of, keep, k0, loc)) && out[loc]
            == base[loc])) by {
            if exists|k0: Seq<char>|
                has_source(src, key_of, keep, k0, loc) && out[loc] == value_of(src[k0]) {
                let k0 = choose|k0: Seq<char>|
                    has_source(src, key_of, keep, k0, loc) && out[loc] == value_of(src[k0]);
                assert(has_source(src2, key_of, keep, k0, loc) && out[loc] == value_of(src2[k0]));
            } else {
                if exists|k0: Seq<char>| has_source(src2, key_of, keep, k0, loc) {
                    let k0 = choose|k0: Seq<char>| has_source(src2, key_of, keep, k0, loc);
                    assert(has_source(src, key_of, keep, k0, loc));
                }
            }
        }
    }
}

/// The function that locates an identity under `root`.
pub open spec fn locate_in(root: Seq<char>) -> spec_fn(Seq<char>) -> Seq<char> {
    |identity: Seq<char>| located(root, identity)
}

/// The function that gives a location its identity relative to `root`.
pub open spec fn relative_in(root: Seq<char>) -> spec_fn(Seq<char>) -> Seq<char> {
    |location: Seq<char>| relative(root, location)
}

/// The test that admits every entry.
pub open spec fn every() -> spec_fn(Seq<char>) -> bool {
    |k: Seq<char>| true
}

/// The test that admits an entry of `doc` whose video file and audio file are
/// both among the files that are `present`.
pub open spec fn both_present(
    doc: Map<Seq<char>, Seq<char>>,
    video_dir: Seq<char>,
    audio_dir: Seq<char>,
    present: Seq<Seq<char>>,
) -> spec_fn(Seq<char>) -> bool {
    |k: Seq<char>|
        present.contains(located(video_dir, k)) && present.contains(located(audio_dir, doc[k]))
}

/// `doc` is the document of `pairs`: each pairing with both identities
/// relative to their roots.
pub open spec fn documented(
    pairs: Map<Seq<char>, Seq<char>>,
    video_dir: Seq<char>,
    audio_dir: Seq<char>,
    doc: Map<Seq<char>, Seq<char>>,
) -> bool {
    carried(
        pairs,
        Map::<Seq<char>, Seq<char>>::empty(),
        doc,
        relative_in(video_dir),
        relative_in(audio_dir),
        every(),
    )
}

/// `after` is what loading the document `doc` makes of `before`: each entry of
/// the document whose two files are present is put in, with both identities
/// located under their roots; the other entries are left out.
pub open spec fn loaded(
    before: Map<Seq<char>, Seq<char>>,
    doc: Map<Seq<char>, Seq<char>>,
    video_dir: Seq<char>,
    audio_dir: Seq<char>,
    present: Seq<Seq<char>>,
    after: Map<Seq<char>, Seq<char>>,
) -> bool {
    carried(
        doc,
        before,
        after,
        locate_in(video_dir),
        locate_in(audio_dir),
        both_present(doc, video_dir, audio_dir, present),
    )
}

/// Round trip: where every identity of `pairs` is storable under its root and
/// names a file that is present, the document of `pairs`, loaded into an empty
/// store, gives exactly `pairs` again.
pub proof fn lemma_round_trip(
    pairs: Map<Seq<char>, Seq<char>>,
    video_dir: Seq<char>,
    audio_dir: Seq<char>,
    doc: Map<Seq<char>, Seq<char>>,
    present: Seq<Seq<char>>,
    after: Map<Seq<char>, Seq<char>>,
)
    requires
        forall|x: Seq<char>| #[trigger]
            pairs.dom().contains(x) ==> storable(video_dir, x) && storable(audio_dir, pairs[x])
                && present.contains(x) && present.contains(pairs[x]),
        documented(pairs, video_dir, audio_dir, doc),
        loaded(Map::<Seq<char>, Seq<char>>::empty(), doc, video_dir, audio_dir, present, after),
    ensures
        after == pairs,
{
    let empty = Map::<Seq<char>, Seq<char>>::empty();
    let relative_v = relative_in(video_dir);
    let relative_a = relative_in(audio_dir);
    let loc_v = locate_in(video_dir);
    let loc_a = locate_in(audio_dir);
    let keep = both_present(doc, video_dir, audio_dir, present);
    // Every entry of the document comes from a pairing and leads back to it.
    assert forall|k: Seq<char>| #[trigger] doc.dom().contains(k) implies pairs.dom().contains(
        loc_v(k),
    ) && loc_a(doc[k]) == pairs[loc_v(k)] && keep(k) by {
        assert(exists|x: Seq<char>|
            has_source(pairs, relative_v, every(), x, k) && doc[k] == relative_a(pairs[x]));
        let x = choose|x: Seq<char>|
            has_source(pairs, relative_v, every(), x, k) && doc[k] == relative_a(pairs[x]);
        assert(pairs.dom().contains(x));
        lemma_located_relative(video_dir, x);
        lemma_located_relative(audio_dir, pairs[x]);
    }
    assert forall|x: Seq<char>| after.dom().contains(x) == pairs.dom().contains(x) by {
        if after.dom().contains(x) {
            let k = choose|k: Seq<char>| has_source(doc, loc_v, keep, k, x);
            assert(doc.dom().contains(k));
        }
        if pairs.dom().contains(x) {
            let k = relative_v(x);
            lemma_located_relative(video_dir, x);
            assert(has_source(pairs, relative_v, every(), x, k));
            assert(doc.dom().contains(k));
            assert(has_source(doc, loc_v, keep, k, x));
        }
    }
    assert forall|x: Seq<char>| after.dom().contains(x) implies after[x] == pairs[x] by {
        assert(pairs.dom().contains(x));
        let k0 = relative_v(x);
        lemma_located_relative(video_dir, x);
        assert(has_source(pairs, relative_v, every(), x, k0));
        assert(doc.dom().contains(k0));
        assert(has_source(doc, loc_v, keep, k0, x));
        let k = choose|k: Seq<char>| has_source(doc, loc_v, keep, k, x) && after[x] == loc_a(doc[k]);
        assert(doc.dom().contains(k));
    }
    assert(after =~= pairs);
}

/// Pruning: an entry of the document of which a file is missing does not come
/// into the store by loading, where nothing else puts its key there.
pub proof fn lemma_pruned(
    before: Map<Seq<char>, Seq<char>>,
    doc: Map<Seq<char>, Seq<char>>,
    video_dir: Seq<char>,
    audio_dir: Seq<char>,
    present: Seq<Seq<char>>,
    after: Map<Seq<char>, Seq<char>>,
    location: Seq<char>,
)
    requires
        loaded(before, doc, video_dir, audio_dir, present, after),
        !before.dom().contains(location),
        forall|k: Seq<char>|
            doc.dom().contains(k) && located(video_dir, k) == location ==> !present.contains(
                location,
            ) || !present.contains(located(audio_dir, #[trigger] doc[k])),
    ensures
        !after.dom().contains(location),
{
    let keep = both_present(doc, video_dir, audio_dir, present);
    if after.dom().contains(location) {
        let k = choose|k: Seq<char>| has_source(doc, locate_in(video_dir), keep, k, location);
        assert(has_source(doc, locate_in(video_dir), keep, k, location));
        assert(present.contains(located(audio_dir, doc[k])));
    }
}

/// The identities of the catalog before they are ordered: the video
/// identities of the store in enumeration order, each relative to the root.
pub open spec fn identities_of(keys: Seq<Seq<char>>, root: Seq<char>) -> Seq<Seq<char>> {
    Seq::new(keys.len(), |i: int| relative(root, keys[i]))
}

/// An identity of the catalog leads back to its key: located under the root
/// again, it is the key that it was made of.
pub proof fn lemma_identity_resolves(keys: Seq<Seq<char>>, root: Seq<char>, i: int)
    requires
        0 <= i < keys.len(),
        storable(root, keys[i]),
    ensures
        located(root, identities_of(keys, root)[i]) == keys[i],
{
    lemma_located_relative(root, keys[i]);
}

/// Every entry of the listed catalog leads back to a key of the store,
/// whatever the order: located under the root, it is one of the keys.
pub proof fn lemma_listing_resolves(
    result: Seq<Seq<char>>,
    sorting: Sorting,
    keys: Seq<Seq<char>>,
    root: Seq<char>,
    mtimes: Seq<u128>,
    j: int,
)
    requires
        sorted_listing(result, sorting, identities_of(keys, root), mtimes),
        forall|i: int| 0 <= i < keys.len() ==> storable(root, #[trigger] keys[i]),
        0 <= j < result.len(),
    ensures
        keys.contains(located(root, result[j])),
{
    let names = identities_of(keys, root);
    let order = choose|order: Seq<usize>| #[trigger]
        arranged(order, sorting, names, mtimes) && result == listing(order, names);
    let i = order[j] as int;
    assert(result[j] == names[i]);
    lemma_identity_resolves(keys, root, i);
    assert(keys[i] == located(root, result[j]));
}

/// The modification time of each of `n` files is known.
pub open spec fn times_known(mtimes: Seq<Option<u128>>, n: nat) -> bool {
    mtimes.len() == n && forall|i: int| 0 <= i < mtimes.len() ==> (#[trigger] mtimes[i]) is Some
}

/// The modification times, where they are known.
pub open spec fn times_of(mtimes: Seq<Option<u128>>) -> Seq<u128> {
    Seq::new(mtimes.len(), |i: int| mtimes[i].unwrap())
}

/// The locations that a document speaks of: the video file and the audio file
/// of each entry.
pub open spec fn locations_of(
    doc: Map<Seq<char>, Seq<char>>,
    video_dir: Seq<char>,
    audio_dir: Seq<char>,
    location: Seq<char>,
) -> bool {
    exists|k: Seq<char>| #[trigger]
        doc.dom().contains(k) && (location == located(video_dir, k) || location == located(
            audio_dir,
            doc[k],
        ))
}

/// The media data: where the document lies, the two roots, the pairing store,
/// the cached catalog with its order and search subset, and the playback
/// controller.
pub struct AudioVideoData {
    pub data_file: String,
    pub video_dir: String,
    pub audio_dir: String,
    pub audio_video: PairingStore,
    pub video_list: Option<Vec<String>>,
    pub search_filtered_list: Option<Vec<String>>,
    pub sorting: Sorting,
    pub player: MediaPlayer,
}

impl AudioVideoData {
    /// `other` differs from `self` at most in the cached catalog.
    pub open spec fn same_but_cache(&self, other: &Self) -> bool {
        &&& self.data_file == other.data_file
        &&& self.video_dir == other.video_dir
        &&& self.audio_dir == other.audio_dir
        &&& self.audio_video == other.audio_video
        &&& self.search_filtered_list == other.search_filtered_list
        &&& self.sorting == other.sorting
        &&& self.player == other.player
    }

    /// Listing the catalog with the modification times `mtimes` gives
    /// `result` and leaves `cache` as the cached catalog. The cached catalog
    /// is given where there is one. Else the identities are given in the order
    /// of `sorting` and cached; but the order by modification time fails
    /// where a time is not known, and caches nothing.
    pub open spec fn lists(
        &self,
        mtimes: Seq<Option<u128>>,
        result: Result<Seq<Seq<char>>, CatalogError>,
        cache: Option<Vec<String>>,
    ) -> bool {
        match self.video_list {
            Some(cached) => result == Ok::<Seq<Seq<char>>, CatalogError>(cached.deep_view())
                && cache == self.video_list,
            None => {
                let names = identities_of(self.audio_video.keys(), self.video_dir@);
                if self.sorting == Sorting::Mtime && !times_known(mtimes, names.len()) {
                    result == Err::<Seq<Seq<char>>, CatalogError>(CatalogError::MissingFile)
                        && cache is None
                } else {
                    &&& result matches Ok(list)
                    &&& sorted_listing(list, self.sorting, names, times_of(mtimes))
                    &&& cache matches Some(cached)
                    &&& cached.deep_view() == list
                }
            },
        }
    }

    /// Playing `video_name` gives `steps` and leaves the controller as
    /// `player`: where the location of the video under the video root has a
    /// pairing, the steps are those that play the paired audio track and the
    /// video; where it has none, there are no steps and the controller stays
    /// as it is.
    pub open spec fn plays(
        &self,
        video_name: Seq<char>,
        steps: Option<Vec<PlayerAction>>,
        player: PlayerView,
    ) -> bool {
        let location = located(self.video_dir@, video_name);
        let pairs = self.audio_video@;
        match steps {
            Some(steps) => pairs.dom().contains(location) && steps.deep_view() == play_plan(
                self.player@,
                pairs[location],
                location,
            ) && player == after_play(self.player@),
            None => !pairs.dom().contains(location) && player == self.player@,
        }
    }

    /// The media data over `audio_video`, with no cached catalog, no search
    /// subset, the names downwards, and a controller without a session.
    pub fn new(
        data_file: &str,
        video_dir: String,
        audio_dir: String,
        audio_video: PairingStore,
        video_cmd: String,
        audio_cmd: String,
    ) -> (r: Self)
        ensures
            r.data_file@ == data_file@,
            r.video_dir == video_dir,
            r.audio_dir == audio_dir,
            r.audio_video == audio_video,
            r.video_list is None,
            r.search_filtered_list is None,
            r.sorting == Sorting::Descending,
            r.player@ == (PlayerView {
                audio_live: false,
                video_live: false,
                video_cmd: video_cmd@,
                audio_cmd: audio_cmd@,
            }),
    {
        AudioVideoData {
            data_file: data_file.to_owned(),
            video_dir,
            audio_dir,
            audio_video,
            video_list: None,
            search_filtered_list: None,
            sorting: Sorting::Descending,
            player: MediaPlayer::new(video_cmd, audio_cmd),
        }
    }

    /// The steps that play the video `video_name` with its audio track, or
    /// `None` where the video has no pairing.
    pub fn play_media(&mut self, video_name: &str) -> (r: Option<Vec<PlayerAction>>)
        ensures
            final(self).data_file == old(self).data_file,
            final(self).video_dir == old(self).video_dir,
            final(self).audio_dir == old(self).audio_dir,
            final(self).audio_video == old(self).audio_video,
            final(self).video_list == old(self).video_list,
            final(self).search_filtered_list == old(self).search_filtered_list,
            final(self).sorting == old(self).sorting,
            old(self).plays(video_name@, r, final(self).player@),
    {
        let video_path = locate(self.video_dir.as_str(), video_name);
        match self.audio_video.get(video_path.as_str()) {
            Some(audio_path) => Some(self.player.play_media(audio_path, video_path)),
            None => None,
        }
    }

    /// The locations that the document speaks of, for the caller to look
    /// which of them are present.
    pub fn document_locations(&self, document: Option<&str>) -> (r: Result<Vec<String>, LoadError>)
        ensures
            match r {
                Ok(locations) => document matches Some(text) && json_object(text@) matches Some(doc)
                    && forall|location: Seq<char>|
                        locations.deep_view().contains(location) <==> locations_of(
                            doc,
                            self.video_dir@,
                            self.audio_dir@,
                            location,
                        ),
                Err(LoadError::Unreadable) => document is None,
                Err(LoadError::Malformed) => document matches Some(text) && json_object(text@)
                    is None,
            },
    {
        let text = match document {
            Some(text) => text,
            None => {
                return Err(LoadError::Unreadable);
            },
        };
        let doc = match read_document(text) {
            Ok(doc) => doc,
            Err(e) => {
                return Err(e);
            },
        };
        let n = doc.len();
        let ghost keys = doc.keys();
        let ghost values = doc.values();
        let ghost vd = self.video_dir@;
        let ghost ad = self.audio_dir@;
        let mut locations: Vec<String> = Vec::new();
        let mut i: usize = 0;
        while i < n
            invariant
                n == keys.len(),
                keys == doc.keys(),
                values == doc.values(),
                doc.consistent(),
                vd == self.video_dir@,
                ad == self.audio_dir@,
                i <= n,
                locations.len() == 2 * i,
                forall|j: int|
                    0 <= j < i ==> locations.deep_view()[2 * j] == located(vd, keys[j])
                        && locations.deep_view()[2 * j + 1] == located(ad, values[j]),
            decreases n - i,
        {
            let video = doc.video_at(i);
            let audio = doc.audio_at(i);
            locations.push(locate(self.video_dir.as_str(), video.as_str()));
            locations.push(locate(self.audio_dir.as_str(), audio.as_str()));
            i = i + 1;
        }
        proof {
            let found = locations.deep_view();
            assert forall|location: Seq<char>| found.contains(location) <==> locations_of(
                doc@,
                vd,
                ad,
                location,
            ) by {
                if found.contains(location) {
                    let at = choose|at: int| 0 <= at < found.len() && found[at] == location;
                    let j = at / 2;
                    assert(at == 2 * j || at == 2 * j + 1);
                    crate::store::lemma_pairing_at(keys, values, j);
                    assert(doc@.dom().contains(keys[j]));
                }
                if locations_of(doc@, vd, ad, location) {
                    let k = choose|k: Seq<char>| #[trigger]
                        doc@.dom().contains(k) && (location == located(vd, k) || location
                            == located(ad, doc@[k]));
                    assert(keys.contains(k));
                    let j = keys.index_of(k);
                    crate::store::lemma_pairing_at(keys, values, j);
                    assert(found[2 * j] == located(vd, keys[j]));
                    assert(found[2 * j + 1] == located(ad, values[j]));
                }
            }
        }
        Ok(locations)
    }

    /// Loads the document into the store. Each entry of which both files are
    /// among `present` is put in under the location of its video; the others
    /// are dropped. `None` stands for a document that could not be read.
    pub fn load_data(&mut self, document: Option<&str>, present: &Vec<String>) -> (r: Result<
        (),
        LoadError,
    >)
        ensures
            final(self).data_file == old(self).data_file,
            final(self).video_dir == old(self).video_dir,
            final(self).audio_dir == old(self).audio_dir,
            final(self).video_list == old(self).video_list,
            final(self).search_filtered_list == old(self).search_filtered_list,
            final(self).sorting == old(self).sorting,
            final(self).player == old(self).player,
            match r {
                Ok(()) => document matches Some(text) && json_object(text@) matches Some(doc)
                    && loaded(
                    old(self).audio_video@,
                    doc,
                    old(self).video_dir@,
                    old(self).audio_dir@,
                    present.deep_view(),
                    final(self).audio_video@,
                ),
                Err(LoadError::Unreadable) => document is None && final(self).audio_video == old(self).audio_video,
                Err(LoadError::Malformed) => document matches Some(text) && json_object(text@)
                    is None && final(self).audio_video == old(self).audio_video,
            },
    {
        let text = match document {
            Some(text) => text,
            None => {
                return Err(LoadError::Unreadable);
            },
        };
        let doc = match read_document(text) {
            Ok(doc) => doc,
            Err(e) => {
                return Err(e);
            },
        };
        let n = doc.len();
        let ghost keys = doc.keys();
        let ghost values = doc.values();
        let ghost vd = self.video_dir@;
        let ghost ad = self.audio_dir@;
        let ghost base = self.audio_video@;
        let ghost keep = both_present(doc@, vd, ad, present.deep_view());
        let mut i: usize = 0;
        proof {
            assert(pairing(keys.take(0), values.take(0)) =~= Map::<Seq<char>, Seq<char>>::empty());
            lemma_carry_none(base, locate_in(vd), locate_in(ad), keep);
        }
        while i < n
            invariant
                n == keys.len(),
                keys == doc.keys(),
                values == doc.values(),
                doc.consistent(),
                vd == self.video_dir@,
                ad == self.audio_dir@,
                keep == both_present(doc@, vd, ad, present.deep_view()),
                i <= n,
                self.data_file == old(self).data_file,
                self.video_dir == old(self).video_dir,
                self.audio_dir == old(self).audio_dir,
                self.video_list == old(self).video_list,
                self.search_filtered_list == old(self).search_filtered_list,
                self.sorting == old(self).sorting,
                self.player == old(self).player,
                carried(
                    pairing(keys.take(i as int), values.take(i as int)),
                    base,
                    self.audio_video@,
                    locate_in(vd),
                    locate_in(ad),
                    keep,
                ),
            decreases n - i,
        {
            let video = doc.video_at(i);
            let audio = doc.audio_at(i);
            let video_path = locate(self.video_dir.as_str(), video.as_str());
            let audio_path = locate(self.audio_dir.as_str(), audio.as_str());
            let both = listed(present, video_path.as_str()) && listed(present, audio_path.as_str());
            proof {
                lemma_pairing_push(keys, values, i as int);
                lemma_carry_step(
                    pairing(keys.take(i as int), values.take(i as int)),
                    base,
                    self.audio_video@,
                    locate_in(vd),
                    locate_in(ad),
                    keep,
                    keys[i as int],
                    values[i as int],
                );
                assert(both == keep(keys[i as int]));
            }
            if both {
                self.audio_video.insert(video_path, audio_path);
            }
            i = i + 1;
        }
        proof {
            assert(keys.take(n as int) =~= keys);
            assert(values.take(n as int) =~= values);
        }
        Ok(())
    }

    /// The pairs of the document of the store: each pairing with both
    /// identities relative to their roots.
    pub fn document(&self) -> (doc: PairingStore)
        ensures
            documented(self.audio_video@, self.video_dir@, self.audio_dir@, doc@),
    {
        let n = self.audio_video.len();
        let ghost keys = self.audio_video.keys();
        let ghost values = self.audio_video.values();
        let ghost vd = self.video_dir@;
        let ghost ad = self.audio_dir@;
        let ghost empty = Map::<Seq<char>, Seq<char>>::empty();
        let mut doc = PairingStore::new();
        let mut i: usize = 0;
        proof {
            assert(pairing(keys.take(0), values.take(0)) =~= empty);
            lemma_carry_none(empty, relative_in(vd), relative_in(ad), every());
        }
        while i < n
            invariant
                n == keys.len(),
                keys == self.audio_video.keys(),
                values == self.audio_video.values(),
                self.audio_video.consistent(),
                vd == self.video_dir@,
                ad == self.audio_dir@,
                empty == Map::<Seq<char>, Seq<char>>::empty(),
                i <= n,
                carried(
                    pairing(keys.take(i as int), values.take(i as int)),
                    empty,
                    doc@,
                    relative_in(vd),
                    relative_in(ad),
                    every(),
                ),
            decreases n - i,
        {
            let video = self.audio_video.video_at(i);
            let audio = self.audio_video.audio_at(i);
            let video_identity = relative_to(self.video_dir.as_str(), video.as_str());
            let audio_identity = relative_to(self.audio_dir.as_str(), audio.as_str());
            proof {
                lemma_pairing_push(keys, values, i as int);
                lemma_carry_step(
                    pairing(keys.take(i as int), values.take(i as int)),
                    empty,
                    doc@,
                    relative_in(vd),
                    relative_in(ad),
                    every(),
                    keys[i as int],
                    values[i as int],
                );
            }
            doc.insert(video_identity, audio_identity);
            i = i + 1;
        }
        proof {
            assert(keys.take(n as int) =~= keys);
            assert(values.take(n as int) =~= values);
        }
        doc
    }

    /// The document of the store, as the text of a JSON object: the text of
    /// the pairs that `document` gives.
    pub fn save_data(&self) -> (r: Result<String, SaveError>)
        ensures
            r matches Ok(text) && (json_object(text@) matches Some(doc) && documented(
                self.audio_video@,
                self.video_dir@,
                self.audio_dir@,
                doc,
            ) && text@ == json_pretty(doc)),
    {
        let doc = self.document();
        write_document(&doc)
    }

    /// The identities of the catalog before they are ordered.
    pub fn identities(&self) -> (r: Vec<String>)
        ensures
            r.deep_view() == identities_of(self.audio_video.keys(), self.video_dir@),
    {
        let n = self.audio_video.len();
        let mut names: Vec<String> = Vec::new();
        let mut i: usize = 0;
        while i < n
            invariant
                n == self.audio_video.keys().len(),
                i <= n,
                names.len() == i,
                forall|j: int|
                    0 <= j < i ==> names@[j]@ == relative(
                        self.video_dir@,
                        self.audio_video.keys()[j],
                    ),
            decreases n - i,
        {
            let video = self.audio_video.video_at(i);
            names.push(relative_to(self.video_dir.as_str(), video.as_str()));
            i = i + 1;
        }
        assert(names.deep_view() =~= identities_of(self.audio_video.keys(), self.video_dir@));
        names
    }

    /// Drops the cached catalog, as is due after every change of the store.
    pub fn invalidate(&mut self)
        ensures
            final(self).video_list is None,
            final(self).same_but_cache(old(self)),
    {
        self.video_list = None;
    }

    /// Sets the order of the catalog; a new order drops the cached catalog.
    pub fn set_sorting(&mut self, sorting: Sorting)
        ensures
            final(self).sorting == sorting,
            sorting == old(self).sorting ==> *final(self) == *old(self),
            sorting != old(self).sorting ==> final(self).video_list is None,
            final(self).data_file == old(self).data_file,
            final(self).video_dir == old(self).video_dir,
            final(self).audio_dir == old(self).audio_dir,
            final(self).audio_video == old(self).audio_video,
            final(self).search_filtered_list == old(self).search_filtered_list,
            final(self).player == old(self).player,
    {
        if self.sorting != sorting {
            self.sorting = sorting;
            self.video_list = None;
        }
    }

    /// The catalog: the cached one where there is one; else the identities in
    /// the order of `sorting`, which are then cached. For the order by
    /// modification time, `mtimes` gives the time of each identity in
    /// enumeration order, `None` where it could not be read; one such `None`
    /// fails the listing.
    pub fn list_videos(&mut self, mtimes: &Vec<Option<u128>>) -> (r: Result<
        Vec<String>,
        CatalogError,
    >)
        ensures
            final(self).same_but_cache(old(self)),
            match r {
                Ok(list) => old(self).lists(mtimes@, Ok(list.deep_view()), final(self).video_list),
                Err(e) => old(self).lists(mtimes@, Err(e), final(self).video_list),
            },
    {
        if let Some(cached) = &self.video_list {
            return Ok(copy_texts(cached));
        }
        let names = self.identities();
        let n = names.len();
        let ghost plain = names.deep_view();
        let mut times: Vec<u128> = Vec::new();
        if self.sorting == Sorting::Mtime {
            if mtimes.len() != n {
                return Err(CatalogError::MissingFile);
            }
            assert(n == plain.len());
            let mut i: usize = 0;
            while i < n
                invariant
                    *self == *old(self),
                    self.video_list is None,
                    self.sorting == Sorting::Mtime,
                    n == self.audio_video.keys().len(),
                    n == mtimes.len(),
                    i <= n,
                    times.len() == i,
                    forall|j: int| 0 <= j < i ==> (#[trigger] mtimes@[j]) is Some,
                    forall|j: int| 0 <= j < i ==> times@[j] == mtimes@[j].unwrap(),
                decreases n - i,
            {
                match mtimes[i] {
                    Some(t) => {
                        times.push(t);
                    },
                    None => {
                        assert(!((mtimes@[i as int]) is Some));
                        return Err(CatalogError::MissingFile);
                    },
                }
                i = i + 1;
            }
            assert(times@ =~= times_of(mtimes@));
        }
        let mut keys: Vec<Vec<char>> = Vec::new();
        let mut i: usize = 0;
        while i < n
            invariant
                n == names.len(),
                i <= n,
                keys.len() == i,
                forall|j: int| 0 <= j < i ==> keys@[j]@ == names@[j]@,
            decreases n - i,
        {
            keys.push(chars_of(names[i].as_str()));
            i = i + 1;
        }
        proof {
            assert forall|j: int| 0 <= j < n implies keys.deep_view()[j] == plain[j] by {
                assert(keys@[j].deep_view() =~= keys@[j]@);
            }
            assert(keys.deep_view() =~= plain);
        }
        let order = arrange(self.sorting, &keys, &times);
        let mut list: Vec<String> = Vec::new();
        let mut i: usize = 0;
        while i < n
            invariant
                n == names.len(),
                n == order.len(),
                plain == names.deep_view(),
                forall|j: int| 0 <= j < order.len() ==> 0 <= #[trigger] order@[j] < n,
                i <= n,
                list.len() == i,
                forall|j: int| 0 <= j < i ==> list@[j]@ == plain[order@[j] as int],
            decreases n - i,
        {
            list.push(names[order[i]].clone());
            i = i + 1;
        }
        proof {
            assert(list.deep_view() =~= listing(order@, plain));
            let wanted = times_of(mtimes@);
            assert forall|a: int, b: int| 0 <= a < b < order@.len() implies before(
                self.sorting,
                plain,
                wanted,
                #[trigger] order@[a] as int,
                #[trigger] order@[b] as int,
            ) by {
                assert(before(self.sorting, plain, times@, order@[a] as int, order@[b] as int));
            }
            assert(arranged(order@, self.sorting, plain, wanted));
        }
        let cached = copy_texts(&list);
        self.video_list = Some(cached);
        Ok(list)
    }
}

} // verus!
