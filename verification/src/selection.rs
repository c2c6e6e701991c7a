//! Choosing among releases: the latest one, the newer ones, the one of a version, those
//! for a target.

use vstd::prelude::*;

use crate::release::{release_views, target_stands_in_an_asset_name, Release, ReleaseView};
use crate::version::{
    bump_is_greater, is_malformed_plain, is_newer, is_pre_release_of, is_semver, plain_bump,
    plain_version, semver_exceeds,
};

verus! {

/// What versions are compared by.
pub enum Scale {
    /// Semantic versions, by their order.
    Semver,
    /// Texts of three numbers, by the numbers.
    Numbers,
}

impl Scale {
    /// `version` is a version by this scale.
    pub open spec fn reads(self, version: Seq<char>) -> bool {
        match self {
            Scale::Semver => is_semver(version),
            Scale::Numbers => plain_version(version) is Some,
        }
    }

    /// `other` is newer than `current`: both are versions, and `other` is greater.
    pub open spec fn newer(self, other: Seq<char>, current: Seq<char>) -> bool {
        match self {
            Scale::Semver => is_newer(other, current),
            Scale::Numbers => plain_bump(current, other) == Some(true),
        }
    }

    /// The scale tells versions like `version` apart as they are told apart here. The
    /// numbers do so where there is neither a pre-release part nor build metadata.
    pub open spec fn suits(self, version: Seq<char>) -> bool {
        self is Numbers ==> !version.contains('-') && !version.contains('+')
    }

    /// The scale suits the version of each release.
    pub open spec fn suits_all(self, releases: Seq<ReleaseView>) -> bool {
        forall|i: int| 0 <= i < releases.len() ==> self.suits((#[trigger] releases[i]).version)
    }
}

/// `answer` tells whether `other` is newer than `current` by the scale: it is there if
/// both are versions, and it places them relative to every third version.
pub open spec fn tells(
    by: Scale,
    current: Seq<char>,
    other: Seq<char>,
    answer: Option<bool>,
) -> bool {
    &&& answer is Some <==> by.reads(current) && by.reads(other)
    &&& answer == Some(true) ==> {
        &&& by.newer(other, current)
        &&& !by.newer(current, other)
        &&& forall|third: Seq<char>|
            #![trigger by.newer(third, current)]
            #![trigger by.newer(other, third)]
            by.reads(third) && !by.newer(third, current) ==> by.newer(other, third) && !by.newer(
                third,
                other,
            )
    }
    &&& answer != Some(true) ==> !by.newer(other, current)
    &&& answer == Some(false) ==> forall|third: Seq<char>|
        #![trigger by.newer(third, current)]
        #![trigger by.newer(third, other)]
        by.reads(third) && by.newer(third, current) ==> by.newer(third, other)
}

/// Whether `other` is newer than `current`, where both are semantic versions.
#[verifier::rlimit(50)]
fn compare(current: &str, other: &str) -> (answer: Option<bool>)
    ensures
        forall|by: Scale|
            by.suits(current@) && by.suits(other@) ==> #[trigger] tells(
                by,
                current@,
                other@,
                answer,
            ),
        answer is Some ==> forall|by: Scale| #[trigger]
            by.suits(current@) ==> by.reads(current@),
        answer is Some ==> forall|by: Scale| #[trigger] by.suits(other@) ==> by.reads(other@),
        answer is Some <==> is_semver(current@) && is_semver(other@),
        answer matches Some(greater) ==> greater == semver_exceeds(other@, current@),
        is_semver(current@) && is_pre_release_of(current@, other@) ==> answer == Some(true),
{
    match bump_is_greater(current, other) {
        Ok(greater) => {
            proof {
                assert(tells(Scale::Semver, current@, other@, Some(greater)));
                if Scale::Numbers.suits(current@) && Scale::Numbers.suits(other@) {
                    assert(!is_malformed_plain(current@) && !is_malformed_plain(other@));
                    assert(plain_bump(current@, other@) == Some(greater));
                    assert(tells(Scale::Numbers, current@, other@, Some(greater)));
                }
                assert forall|by: Scale| by.suits(current@) && by.suits(other@) implies #[trigger]
                    tells(by, current@, other@, Some(greater)) by {
                    match by {
                        Scale::Semver => {},
                        Scale::Numbers => {},
                    }
                }
            }
            Some(greater)
        },
        Err(_) => {
            proof {
                assert(tells(Scale::Semver, current@, other@, None));
                assert(tells(Scale::Numbers, current@, other@, None));
                assert forall|by: Scale| by.suits(current@) && by.suits(other@) implies #[trigger]
                    tells(by, current@, other@, None) by {
                    match by {
                        Scale::Semver => {},
                        Scale::Numbers => {},
                    }
                }
            }
            None
        },
    }
}

/// Some release has a version that can be read.
pub open spec fn some_read(by: Scale, releases: Seq<ReleaseView>) -> bool {
    exists|i: int| 0 <= i < releases.len() && by.reads((#[trigger] releases[i]).version)
}

/// The release at `at` is the latest.
///
/// Versions that cannot be read are ignored. Of the others, none before it is newer, and
/// it is newer than each behind it. Where no version can be read, it is the last release.
pub open spec fn is_latest(by: Scale, releases: Seq<ReleaseView>, at: int) -> bool {
    &&& 0 <= at < releases.len()
    &&& some_read(by, releases) ==> by.reads(releases[at].version)
    &&& forall|i: int|
        0 <= i < at && by.reads((#[trigger] releases[i]).version) ==> !by.newer(
            releases[i].version,
            releases[at].version,
        )
    &&& forall|i: int|
        at < i < releases.len() && by.reads((#[trigger] releases[i]).version) ==> by.newer(
            releases[at].version,
            releases[i].version,
        ) && !by.newer(releases[i].version, releases[at].version)
    &&& !some_read(by, releases) ==> at == releases.len() - 1
}

/// The latest of some releases and one more is the one or the other. `held` and `fresh`
/// tell whether their versions can be read.
proof fn lemma_latest_step(
    by: Scale,
    views: Seq<ReleaseView>,
    best: int,
    held: bool,
    i: int,
    fresh: bool,
    answer: Option<bool>,
)
    requires
        0 < i < views.len(),
        is_latest(by, views.take(i), best),
        held == by.reads(views[best].version),
        fresh == by.reads(views[i].version),
        tells(by, views[i].version, views[best].version, answer),
    ensures
        is_latest(
            by,
            views.take(i + 1),
            if answer == Some(true) || (held && !fresh) {
                best
            } else {
                i
            },
        ),
{
    let seen = views.take(i);
    let more = views.take(i + 1);
    let next = if answer == Some(true) || (held && !fresh) {
        best
    } else {
        i
    };
    assert(more[i] == views[i] && more[best] == views[best] && seen[best] == views[best]);
    assert forall|k: int| 0 <= k < i implies #[trigger] more[k] == seen[k] by {}
    if some_read(by, more) {
        let k = choose|k: int| 0 <= k < more.len() && by.reads((#[trigger] more[k]).version);
        if k < i {
            assert(by.reads(seen[k].version));
            assert(some_read(by, seen));
        }
        assert(by.reads(more[next].version));
    } else {
        assert(!by.reads(more[i].version) && !by.reads(more[best].version));
    }
    assert forall|k: int| 0 <= k < next && by.reads((#[trigger] more[k]).version) implies !by.newer(
        more[k].version,
        more[next].version,
    ) by {
        assert(seen[k] == more[k]);
        assert(some_read(by, seen));
        if next == i && by.newer(more[k].version, views[i].version) {
            assert(answer == Some(false));
            assert(by.newer(more[k].version, views[best].version));
            if k != best {
                assert(!by.newer(seen[k].version, seen[best].version));
            }
        }
    }
    assert forall|k: int|
        next < k < more.len() && by.reads((#[trigger] more[k]).version) implies by.newer(
        more[next].version,
        more[k].version,
    ) && !by.newer(more[k].version, more[next].version) by {
        if k < i {
            assert(seen[k] == more[k]);
        }
    }
}

/// Whether `version` can be read.
fn can_read(version: &str) -> (read: bool)
    ensures
        forall|by: Scale| #[trigger] by.suits(version@) ==> read == by.reads(version@),
{
    let answer = compare(version, version);
    proof {
        assert forall|by: Scale| #[trigger] by.suits(version@) implies answer is Some == by.reads(
            version@,
        ) by {
            assert(tells(by, version@, version@, answer));
        }
    }
    answer.is_some()
}

/// The position of the latest of `releases`.
pub fn latest_index(releases: &Vec<Release>) -> (at: usize)
    requires
        releases@.len() > 0,
    ensures
        at < releases@.len(),
        forall|by: Scale|
            by.suits_all(release_views(releases@)) ==> #[trigger] is_latest(
                by,
                release_views(releases@),
                at as int,
            ),
        forall|i: int|
            0 <= i < releases@.len() && is_semver((#[trigger] releases@[i]).version@) ==> {
                &&& is_semver(releases@[at as int].version@)
                &&& i < at ==> !semver_exceeds(
                    releases@[i].version@,
                    releases@[at as int].version@,
                )
                &&& i > at ==> semver_exceeds(
                    releases@[at as int].version@,
                    releases@[i].version@,
                )
            },
        (forall|i: int|
            0 <= i < releases@.len() ==> !is_semver((#[trigger] releases@[i]).version@)) ==> at
            == releases@.len() - 1,
{
    let ghost views = release_views(releases@);
    let mut best: usize = 0;
    let mut held = can_read(releases[0].version.as_str());
    let mut i: usize = 1;
    proof {
        assert forall|by: Scale| by.suits_all(views) implies #[trigger] is_latest(
            by,
            views.take(1),
            0,
        ) by {
            assert(views.take(1)[0] == views[0]);
            if by.reads(views[0].version) {
                assert(some_read(by, views.take(1)));
            }
        }
    }
    while i < releases.len()
        invariant
            views == release_views(releases@),
            1 <= i <= releases@.len(),
            best < i,
            forall|by: Scale|
                by.suits_all(views) ==> #[trigger] is_latest(by, views.take(i as int), best as int),
            forall|by: Scale| #[trigger]
                by.suits(views[best as int].version) ==> held == by.reads(
                    views[best as int].version,
                ),
        decreases releases@.len() - i,
    {
        let fresh = can_read(releases[i].version.as_str());
        let answer = compare(releases[i].version.as_str(), releases[best].version.as_str());
        let keep = match answer {
            Some(true) => true,
            _ => held && !fresh,
        };
        let next: usize = if keep {
            best
        } else {
            i
        };
        proof {
            assert forall|by: Scale| by.suits_all(views) implies #[trigger] is_latest(
                by,
                views.take(i + 1),
                next as int,
            ) by {
                assert(is_latest(by, views.take(i as int), best as int));
                assert(by.suits(views[i as int].version) && by.suits(views[best as int].version));
                assert(tells(by, views[i as int].version, views[best as int].version, answer));
                lemma_latest_step(by, views, best as int, held, i as int, fresh, answer);
            }
        }
        best = next;
        held = held || fresh;
        i = i + 1;
    }
    proof {
        assert(views.take(i as int) =~= views);
        assert(Scale::Semver.suits_all(views));
        latest_is_greatest(views, best as int);
        assert forall|k: int| 0 <= k < views.len() implies (#[trigger] releases@[k]).version@
            == views[k].version by {}
        assert forall|k: int| 0 <= k < views.len() implies (#[trigger] views[k]).version
            == releases@[k].version@ by {}
    }
    best
}

/// The first position of a release with version `version`.
pub fn find_version(releases: &Vec<Release>, version: &String) -> (at: Option<usize>)
    ensures
        at matches Some(i) ==> {
            &&& i < releases@.len()
            &&& releases@[i as int].version@ == version@
            &&& forall|k: int| 0 <= k < i ==> (#[trigger] releases@[k]).version@ != version@
        },
        at is None ==> forall|k: int|
            0 <= k < releases@.len() ==> (#[trigger] releases@[k]).version@ != version@,
{
    let mut i: usize = 0;
    while i < releases.len()
        invariant
            i <= releases@.len(),
            forall|k: int| 0 <= k < i ==> (#[trigger] releases@[k]).version@ != version@,
        decreases releases@.len() - i,
    {
        if releases[i].version == *version {
            return Some(i);
        }
        i = i + 1;
    }
    None
}

/// The releases with an asset for `target`, in their order.
pub open spec fn for_target(releases: Seq<ReleaseView>, target: Seq<char>) -> Seq<ReleaseView> {
    releases.filter(|r: ReleaseView| r.has_target(target))
}

/// The releases with an asset for `target`, in their order.
pub fn retain_target(releases: Vec<Release>, target: &str) -> (kept: Vec<Release>)
    ensures
        release_views(kept@) == for_target(release_views(releases@), target@),
{
    let ghost views = release_views(releases@);
    let ghost fits = |r: ReleaseView| r.has_target(target@);
    let mut kept: Vec<Release> = Vec::new();
    let mut i: usize = 0;
    proof {
        reveal(Seq::filter);
        assert(views.take(0).filter(fits) =~= Seq::empty());
        assert(release_views(kept@) =~= Seq::empty());
    }
    while i < releases.len()
        invariant
            views == release_views(releases@),
            fits == (|r: ReleaseView| r.has_target(target@)),
            i <= releases@.len(),
            release_views(kept@) == views.take(i as int).filter(fits),
        decreases releases@.len() - i,
    {
        let ghost before = kept@;
        let fit = releases[i].has_target_asset(target);
        if fit {
            kept.push(releases[i].clone());
        }
        proof {
            reveal(Seq::filter);
            let more = views.take(i + 1);
            assert(more.drop_last() =~= views.take(i as int));
            assert(more.last() == releases@[i as int]@);
            if fit {
                assert(release_views(kept@) =~= release_views(before).push(more.last()));
            }
        }
        i = i + 1;
    }
    assert(views.take(i as int) =~= views);
    kept
}

/// The releases that are newer than `current`, in their order.
pub open spec fn newer_than(
    by: Scale,
    releases: Seq<ReleaseView>,
    current: Seq<char>,
) -> Seq<ReleaseView> {
    releases.filter(|r: ReleaseView| by.newer(r.version, current))
}

/// Each version is one by every scale that suits it.
pub open spec fn are_comparable(releases: Seq<ReleaseView>) -> bool {
    forall|by: Scale, i: int|
        0 <= i < releases.len() && by.suits((#[trigger] releases[i]).version) ==> #[trigger] by.reads(
            releases[i].version,
        )
}

/// One release more to choose from by the current version.
proof fn lemma_newer_step(by: Scale, views: Seq<ReleaseView>, current: Seq<char>, i: int)
    requires
        0 <= i < views.len(),
    ensures
        newer_than(by, views.take(i + 1), current) == if by.newer(views[i].version, current) {
            newer_than(by, views.take(i), current).push(views[i])
        } else {
            newer_than(by, views.take(i), current)
        },
{
    reveal(Seq::filter);
    assert(views.take(i + 1).drop_last() =~= views.take(i));
    assert(views.take(i + 1).last() == views[i]);
}

/// The releases that are newer than `current`, in their order.
#[verifier::rlimit(50)]
pub fn retain_newer(releases: &Vec<Release>, current: &str) -> (kept: Vec<Release>)
    ensures
        forall|by: Scale|
            by.suits(current@) && by.suits_all(release_views(releases@)) ==> release_views(kept@)
                == #[trigger] newer_than(by, release_views(releases@), current@),
        are_comparable(release_views(kept@)),
        forall|by: Scale|
            by.suits_all(release_views(releases@)) ==> #[trigger] by.suits_all(
                release_views(kept@),
            ),
        release_views(kept@) == release_views(releases@).filter(
            |r: ReleaseView|
                is_semver(r.version) && is_semver(current@) && semver_exceeds(r.version, current@),
        ),
        is_semver(current@) ==> forall|k: int|
            0 <= k < releases@.len() && is_pre_release_of(
                current@,
                (#[trigger] releases@[k]).version@,
            ) ==> release_views(kept@).contains(releases@[k]@),
{
    let ghost views = release_views(releases@);
    let mut kept: Vec<Release> = Vec::new();
    let mut i: usize = 0;
    proof {
        assert forall|by: Scale| #[trigger]
            newer_than(by, views.take(0), current@) == release_views(kept@) by {
            reveal(Seq::filter);
            assert(newer_than(by, views.take(0), current@) =~= release_views(kept@));
        }
    }
    while i < releases.len()
        invariant
            views == release_views(releases@),
            i <= releases@.len(),
            forall|by: Scale|
                by.suits(current@) && by.suits_all(views) ==> release_views(kept@)
                    == #[trigger] newer_than(by, views.take(i as int), current@),
            are_comparable(release_views(kept@)),
            forall|by: Scale|
                by.suits_all(views) ==> #[trigger] by.suits_all(release_views(kept@)),
            forall|k: int|
                0 <= k < i && is_semver(current@) && is_pre_release_of(
                    current@,
                    (#[trigger] releases@[k]).version@,
                ) ==> is_newer(releases@[k].version@, current@),
        decreases releases@.len() - i,
    {
        let ghost before = kept@;
        let answer = compare(current, releases[i].version.as_str());
        let fit = match answer {
            Some(greater) => greater,
            None => false,
        };
        if fit {
            let copy = releases[i].clone();
            kept.push(copy);
            proof {
                assert(release_views(kept@) =~= release_views(before).push(views[i as int]));
                assert(views[i as int].version == releases@[i as int].version@);
                assert forall|by: Scale, k: int|
                    0 <= k < kept@.len() && by.suits(
                        (#[trigger] release_views(kept@)[k]).version,
                    ) implies #[trigger] by.reads(release_views(kept@)[k].version) by {
                    if k < before.len() {
                        assert(release_views(kept@)[k] == release_views(before)[k]);
                    }
                }
            }
        }
        proof {
            assert forall|by: Scale| by.suits_all(views) implies #[trigger] by.suits_all(
                release_views(kept@),
            ) by {
                assert(by.suits_all(release_views(before)));
                assert(by.suits(views[i as int].version));
                assert forall|k: int| 0 <= k < release_views(kept@).len() implies by.suits(
                    (#[trigger] release_views(kept@)[k]).version,
                ) by {
                    if k < before.len() {
                        assert(release_views(kept@)[k] == release_views(before)[k]);
                    }
                }
            }
            assert forall|by: Scale| by.suits(current@) && by.suits_all(views) implies
                release_views(kept@) == #[trigger] newer_than(by, views.take(i + 1), current@) by {
                assert(release_views(before) == newer_than(by, views.take(i as int), current@));
                assert(by.suits(views[i as int].version));
                assert(tells(by, current@, releases@[i as int].version@, answer));
                lemma_newer_step(by, views, current@, i as int);
            }
        }
        i = i + 1;
    }
    proof {
        assert(views.take(i as int) =~= views);
        assert(Scale::Semver.suits_all(views));
        let fits = |r: ReleaseView| Scale::Semver.newer(r.version, current@);
        let above = |r: ReleaseView|
            is_semver(r.version) && is_semver(current@) && semver_exceeds(r.version, current@);
        assert(fits =~= above);
        assert(release_views(kept@) == newer_than(Scale::Semver, views, current@));
        assert forall|k: int|
            0 <= k < releases@.len() && is_semver(current@) && is_pre_release_of(
                current@,
                (#[trigger] releases@[k]).version@,
            ) implies release_views(kept@).contains(releases@[k]@) by {
            assert(views[k] == releases@[k]@);
            assert(views.contains(views[k]));
            newer_version_decides(Scale::Semver, views, current@, views[k]);
        }
    }
    kept
}

/// `places` lists the positions `0` to `len - 1`, each once.
pub open spec fn is_permutation(places: Seq<int>, len: int) -> bool {
    &&& places.len() == len
    &&& forall|a: int| 0 <= a < len ==> 0 <= #[trigger] places[a] < len
    &&& forall|a: int, b: int| 0 <= a < b < len ==> places[a] != places[b]
    &&& forall|x: int| 0 <= x < len ==> #[trigger] places.contains(x)
}

/// The release at position `x` of `releases` belongs before the one at position `y`: it
/// is not newer, and where neither is newer it stands later in `releases`.
pub open spec fn belongs_before(by: Scale, releases: Seq<ReleaseView>, x: int, y: int) -> bool {
    &&& !by.newer(releases[x].version, releases[y].version)
    &&& !by.newer(releases[y].version, releases[x].version) ==> x > y
}

/// The first `to` positions of `places` are in the order in which the releases belong.
pub open spec fn in_order(
    by: Scale,
    releases: Seq<ReleaseView>,
    places: Seq<int>,
    to: int,
) -> bool {
    forall|a: int, b: int|
        0 <= a < b < to ==> belongs_before(by, releases, #[trigger] places[a], #[trigger] places[b])
}

/// `sorted` are the releases of `releases` at the positions `places`, in the order in
/// which they belong.
pub open spec fn is_arranged(
    by: Scale,
    releases: Seq<ReleaseView>,
    sorted: Seq<ReleaseView>,
    places: Seq<int>,
) -> bool {
    &&& sorted.len() == releases.len()
    &&& is_permutation(places, releases.len() as int)
    &&& forall|a: int| 0 <= a < sorted.len() ==> #[trigger] sorted[a] == releases[places[a]]
    &&& in_order(by, releases, places, sorted.len() as int)
}

/// `sorted` are the releases of `releases` with the oldest first. Of two with the same
/// version the one that stands later in `releases` comes first.
pub open spec fn oldest_first(
    by: Scale,
    releases: Seq<ReleaseView>,
    sorted: Seq<ReleaseView>,
) -> bool {
    exists|places: Seq<int>| is_arranged(by, releases, sorted, places)
}

/// The places once the release at position `i` has moved in front of position `j`.
pub open spec fn moved_places(places: Seq<int>, i: int, j: int) -> Seq<int> {
    places.remove(i).insert(j, places[i])
}

/// How the release at position `i` moves in front of position `j`.
proof fn lemma_move(
    releases: Seq<ReleaseView>,
    before: Seq<ReleaseView>,
    after: Seq<ReleaseView>,
    places: Seq<int>,
    i: int,
    j: int,
)
    requires
        before.len() == releases.len(),
        0 <= j <= i < releases.len(),
        is_permutation(places, releases.len() as int),
        forall|a: int| 0 <= a < before.len() ==> #[trigger] before[a] == releases[places[a]],
        forall|a: int| i <= a < places.len() ==> #[trigger] places[a] == a,
        after == before.remove(i).insert(j, before[i]),
    ensures
        after.len() == releases.len(),
        is_permutation(moved_places(places, i, j), releases.len() as int),
        forall|a: int|
            0 <= a < after.len() ==> #[trigger] after[a] == releases[moved_places(places, i, j)[a]],
        forall|a: int|
            i + 1 <= a < places.len() ==> #[trigger] moved_places(places, i, j)[a] == a,
{
    let moved = moved_places(places, i, j);
    assert forall|x: int| 0 <= x < releases.len() implies #[trigger] moved.contains(x) by {
        assert(places.contains(x));
        let a = choose|a: int| 0 <= a < places.len() && places[a] == x;
        if a < j || a > i {
            assert(moved[a] == x);
        } else if a == i {
            assert(moved[j] == x);
        } else {
            assert(moved[a + 1] == x);
        }
    }
}

/// The order that the move gives.
proof fn lemma_move_order(by: Scale, releases: Seq<ReleaseView>, places: Seq<int>, i: int, j: int)
    requires
        0 <= j <= i < places.len(),
        places[i] == i,
        in_order(by, releases, places, i),
        forall|a: int| 0 <= a < j ==> belongs_before(by, releases, #[trigger] places[a], i),
        forall|a: int| j <= a < i ==> belongs_before(by, releases, i, #[trigger] places[a]),
    ensures
        in_order(by, releases, moved_places(places, i, j), i + 1),
{
    let moved = moved_places(places, i, j);
    assert forall|a: int| 0 <= a < i + 1 implies #[trigger] moved[a] == (if a < j {
        places[a]
    } else if a == j {
        i
    } else {
        places[a - 1]
    }) by {}
}

/// The release at position `i` belongs behind all that stand before one that is older.
proof fn lemma_behind(
    by: Scale,
    releases: Seq<ReleaseView>,
    places: Seq<int>,
    i: int,
    j: int,
    answer: Option<bool>,
)
    requires
        0 < j <= i,
        in_order(by, releases, places, i),
        forall|a: int| 0 <= a < i ==> by.reads(releases[#[trigger] places[a]].version),
        tells(by, releases[places[j - 1]].version, releases[i].version, answer),
        answer == Some(true),
    ensures
        forall|a: int| 0 <= a < j ==> belongs_before(by, releases, #[trigger] places[a], i),
{
    assert forall|a: int| 0 <= a < j implies belongs_before(
        by,
        releases,
        #[trigger] places[a],
        i,
    ) by {
        if a < j - 1 {
            assert(belongs_before(by, releases, places[a], places[j - 1]));
        }
        assert(by.reads(releases[places[a]].version));
    }
}

/// Sorts releases, the oldest first.
pub fn sort_oldest_first(releases: &mut Vec<Release>)
    requires
        are_comparable(release_views(old(releases)@)),
    ensures
        forall|by: Scale|
            by.suits_all(release_views(old(releases)@)) ==> #[trigger] oldest_first(
                by,
                release_views(old(releases)@),
                release_views(final(releases)@),
            ),
{
    let ghost given = release_views(releases@);
    let ghost mut places: Seq<int> = Seq::new(given.len(), |a: int| a);
    let mut i: usize = 0;
    proof {
        assert forall|x: int| 0 <= x < given.len() implies #[trigger] places.contains(x) by {
            assert(places[x] == x);
        }
    }
    while i < releases.len()
        invariant
            i <= releases@.len(),
            given.len() == releases@.len(),
            are_comparable(given),
            is_permutation(places, given.len() as int),
            forall|a: int| 0 <= a < given.len() ==> (#[trigger] releases@[a])@ == given[places[a]],
            forall|a: int| i <= a < places.len() ==> #[trigger] places[a] == a,
            forall|by: Scale|
                by.suits_all(given) ==> #[trigger] in_order(by, given, places, i as int),
        decreases releases@.len() - i,
    {
        let mut j: usize = i;
        assert(releases@[i as int]@ == given[i as int]);
        while j > 0
            invariant
                j <= i < releases@.len(),
                given.len() == releases@.len(),
                are_comparable(given),
                is_permutation(places, given.len() as int),
                forall|a: int| i <= a < places.len() ==> #[trigger] places[a] == a,
                releases@[i as int]@ == given[i as int],
                forall|a: int|
                    0 <= a < given.len() ==> (#[trigger] releases@[a])@ == given[places[a]],
                forall|by: Scale|
                    by.suits_all(given) ==> #[trigger] in_order(by, given, places, i as int),
                forall|by: Scale, a: int|
                    j <= a < i && by.suits_all(given) ==> #[trigger] belongs_before(
                        by,
                        given,
                        i as int,
                        places[a],
                    ),
            ensures
                forall|by: Scale, a: int|
                    0 <= a < j && by.suits_all(given) ==> #[trigger] belongs_before(
                        by,
                        given,
                        places[a],
                        i as int,
                    ),
            decreases j,
        {
            assert(releases@[j - 1]@ == given[places[j - 1]]);
            let answer = compare(releases[j - 1].version.as_str(), releases[i].version.as_str());
            let ghost x = places[j - 1];
            proof {
                assert forall|by: Scale| by.suits_all(given) implies #[trigger] tells(
                    by,
                    given[x].version,
                    given[i as int].version,
                    answer,
                ) && by.reads(given[x].version) && by.reads(given[i as int].version) by {
                    assert(by.suits(given[x].version));
                    assert(by.suits(given[i as int].version));
                }
            }
            if let Some(true) = answer {
                proof {
                    assert forall|by: Scale, a: int|
                        0 <= a < j && by.suits_all(given) implies #[trigger] belongs_before(
                        by,
                        given,
                        places[a],
                        i as int,
                    ) by {
                        assert(tells(by, given[x].version, given[i as int].version, answer));
                        assert(in_order(by, given, places, i as int));
                        assert forall|b: int| 0 <= b < i implies by.reads(
                            given[#[trigger] places[b]].version,
                        ) by {
                            assert(by.suits(given[places[b]].version));
                        }
                        lemma_behind(by, given, places, i as int, j as int, answer);
                    }
                }
                break;
            }
            proof {
                assert forall|by: Scale, a: int|
                    j - 1 <= a < i && by.suits_all(given) implies #[trigger] belongs_before(
                    by,
                    given,
                    i as int,
                    places[a],
                ) by {
                    assert(tells(by, given[x].version, given[i as int].version, answer));
                    if a == j - 1 {
                        if x >= i {
                            assert(places[x] == x);
                        }
                    }
                }
            }
            j = j - 1;
        }
        let ghost before = releases@;
        let release = releases.remove(i);
        releases.insert(j, release);
        proof {
            assert(release_views(releases@) =~= release_views(before).remove(i as int).insert(
                j as int,
                release_views(before)[i as int],
            ));
            lemma_move(
                given,
                release_views(before),
                release_views(releases@),
                places,
                i as int,
                j as int,
            );
            let moved = moved_places(places, i as int, j as int);
            assert forall|a: int| 0 <= a < given.len() implies (#[trigger] releases@[a])@
                == given[moved[a]] by {
                assert(release_views(releases@)[a] == releases@[a]@);
            }
            assert forall|by: Scale| by.suits_all(given) implies #[trigger] in_order(
                by,
                given,
                moved,
                i + 1,
            ) by {
                assert(in_order(by, given, places, i as int));
                assert forall|a: int| 0 <= a < j implies belongs_before(
                    by,
                    given,
                    #[trigger] places[a],
                    i as int,
                ) by {}
                lemma_move_order(by, given, places, i as int, j as int);
            }
            places = moved;
        }
        i = i + 1;
    }
    proof {
        assert forall|by: Scale| by.suits_all(given) implies #[trigger] oldest_first(
            by,
            given,
            release_views(releases@),
        ) by {
            assert(in_order(by, given, places, i as int));
            assert(is_arranged(by, given, release_views(releases@), places));
        }
    }
}

/// There is one latest release at most.
pub proof fn latest_is_unique(by: Scale, releases: Seq<ReleaseView>, a: int, b: int)
    requires
        is_latest(by, releases, a),
        is_latest(by, releases, b),
    ensures
        a == b,
{
    if a < b {
        lemma_not_both_latest(by, releases, a, b);
    } else if b < a {
        lemma_not_both_latest(by, releases, b, a);
    }
}

/// A release behind the latest is not the latest.
proof fn lemma_not_both_latest(by: Scale, releases: Seq<ReleaseView>, a: int, b: int)
    requires
        is_latest(by, releases, a),
        a < b < releases.len(),
    ensures
        !is_latest(by, releases, b),
{
    if by.reads(releases[b].version) {
        assert(some_read(by, releases));
    }
}

/// No other release is newer than the latest.
pub proof fn none_is_newer_than_latest(by: Scale, releases: Seq<ReleaseView>, at: int, i: int)
    requires
        is_latest(by, releases, at),
        0 <= i < releases.len(),
        i != at,
    ensures
        !by.newer(releases[i].version, releases[at].version),
{
}

/// A version that cannot be read is ignored: without its release the latest is the same,
/// where some version can be read.
pub proof fn unreadable_version_is_ignored(
    by: Scale,
    releases: Seq<ReleaseView>,
    at: int,
    left_out: int,
)
    requires
        is_latest(by, releases, at),
        some_read(by, releases),
        0 <= left_out < releases.len(),
        !by.reads(releases[left_out].version),
    ensures
        ({
            let rest = releases.remove(left_out);
            let place = if left_out < at {
                at - 1
            } else {
                at
            };
            is_latest(by, rest, place) && rest[place] == releases[at]
        }),
{
    let rest = releases.remove(left_out);
    let place = if left_out < at {
        at - 1
    } else {
        at
    };
    assert(rest[place] == releases[at]);
    assert(some_read(by, rest));
    assert forall|i: int| 0 <= i < place && by.reads((#[trigger] rest[i]).version) implies !by.newer(
        rest[i].version,
        rest[place].version,
    ) by {
        assert(rest[i] == releases[if i < left_out { i } else { i + 1 }]);
    }
    assert forall|i: int|
        place < i < rest.len() && by.reads((#[trigger] rest[i]).version) implies by.newer(
        rest[place].version,
        rest[i].version,
    ) && !by.newer(rest[i].version, rest[place].version) by {
        assert(rest[i] == releases[if i < left_out { i } else { i + 1 }]);
    }
}

/// Two positions do not each belong before the other.
proof fn lemma_one_way(by: Scale, releases: Seq<ReleaseView>, x: int, y: int)
    requires
        belongs_before(by, releases, x, y),
    ensures
        !belongs_before(by, releases, y, x),
{
}

/// Two arrangements of the same releases agree up to position `k`.
proof fn lemma_same_places(
    by: Scale,
    releases: Seq<ReleaseView>,
    first: Seq<ReleaseView>,
    first_places: Seq<int>,
    second: Seq<ReleaseView>,
    second_places: Seq<int>,
    k: int,
)
    requires
        is_arranged(by, releases, first, first_places),
        is_arranged(by, releases, second, second_places),
        0 <= k <= releases.len(),
    ensures
        forall|a: int| 0 <= a < k ==> #[trigger] first_places[a] == second_places[a],
    decreases k,
{
    if k > 0 {
        let a = k - 1;
        lemma_same_places(by, releases, first, first_places, second, second_places, a);
        let x = first_places[a];
        let y = second_places[a];
        if x != y {
            assert(second_places.contains(x));
            let i = choose|i: int| 0 <= i < second_places.len() && second_places[i] == x;
            assert(first_places.contains(y));
            let j = choose|j: int| 0 <= j < first_places.len() && first_places[j] == y;
            if i < a {
                assert(first_places[i] == x);
            }
            if j < a {
                assert(first_places[j] == second_places[j]);
            }
            assert(belongs_before(by, releases, second_places[a], second_places[i]));
            assert(belongs_before(by, releases, first_places[a], first_places[j]));
            lemma_one_way(by, releases, x, y);
        }
    }
}

/// The order of sorted releases is determined.
pub proof fn sorted_order_is_unique(
    by: Scale,
    releases: Seq<ReleaseView>,
    first: Seq<ReleaseView>,
    second: Seq<ReleaseView>,
)
    requires
        oldest_first(by, releases, first),
        oldest_first(by, releases, second),
    ensures
        first == second,
{
    let p = choose|places: Seq<int>| is_arranged(by, releases, first, places);
    let q = choose|places: Seq<int>| is_arranged(by, releases, second, places);
    lemma_same_places(by, releases, first, p, second, q, releases.len() as int);
    assert forall|a: int| 0 <= a < first.len() implies first[a] == second[a] by {
        assert(first[a] == releases[p[a]]);
        assert(second[a] == releases[q[a]]);
    }
    assert(first =~= second);
}

/// Of sorted releases none is newer than one that comes behind it.
pub proof fn sorted_versions_do_not_fall(
    by: Scale,
    releases: Seq<ReleaseView>,
    sorted: Seq<ReleaseView>,
    a: int,
    b: int,
)
    requires
        oldest_first(by, releases, sorted),
        0 <= a < b < sorted.len(),
    ensures
        !by.newer(sorted[a].version, sorted[b].version),
{
    let p = choose|places: Seq<int>| is_arranged(by, releases, sorted, places);
    assert(belongs_before(by, releases, p[a], p[b]));
    assert(sorted[a] == releases[p[a]]);
    assert(sorted[b] == releases[p[b]]);
}

/// Sorting neither adds nor drops a release.
pub proof fn sorting_keeps_releases(
    by: Scale,
    releases: Seq<ReleaseView>,
    sorted: Seq<ReleaseView>,
    release: ReleaseView,
)
    requires
        oldest_first(by, releases, sorted),
    ensures
        sorted.len() == releases.len(),
        sorted.contains(release) == releases.contains(release),
{
    let p = choose|places: Seq<int>| is_arranged(by, releases, sorted, places);
    if sorted.contains(release) {
        let a = choose|a: int| 0 <= a < sorted.len() && sorted[a] == release;
        assert(releases[p[a]] == release);
    }
    if releases.contains(release) {
        let x = choose|x: int| 0 <= x < releases.len() && releases[x] == release;
        assert(p.contains(x));
        let a = choose|a: int| 0 <= a < p.len() && p[a] == x;
        assert(sorted[a] == release);
    }
}

/// Choosing by a target keeps a release exactly if one of its assets is for the target.
pub proof fn target_decides(releases: Seq<ReleaseView>, target: Seq<char>, release: ReleaseView)
    ensures
        for_target(releases, target).contains(release) <==> releases.contains(release)
            && release.has_target(target),
{
    lemma_filter_contains(releases, |r: ReleaseView| r.has_target(target), release);
}

/// Choosing by the current version keeps a release exactly if it is newer.
pub proof fn newer_version_decides(
    by: Scale,
    releases: Seq<ReleaseView>,
    current: Seq<char>,
    release: ReleaseView,
)
    ensures
        newer_than(by, releases, current).contains(release) <==> releases.contains(release)
            && by.newer(release.version, current),
{
    lemma_filter_contains(releases, |r: ReleaseView| by.newer(r.version, current), release);
}

/// What a filtered sequence contains.
proof fn lemma_filter_contains(
    releases: Seq<ReleaseView>,
    fits: spec_fn(ReleaseView) -> bool,
    release: ReleaseView,
)
    ensures
        releases.filter(fits).contains(release) <==> releases.contains(release) && fits(release),
    decreases releases.len(),
{
    reveal(Seq::filter);
    if releases.len() > 0 {
        let earlier = releases.drop_last();
        let last = releases.last();
        lemma_filter_contains(earlier, fits, release);
        assert(releases =~= earlier.push(last));
        lemma_push_contains(earlier, last, release);
        if fits(last) {
            lemma_push_contains(earlier.filter(fits), last, release);
        }
    }
}

/// What a sequence contains behind a push.
proof fn lemma_push_contains(releases: Seq<ReleaseView>, last: ReleaseView, release: ReleaseView)
    ensures
        releases.push(last).contains(release) <==> releases.contains(release) || release == last,
{
    let more = releases.push(last);
    if releases.contains(release) {
        let i = choose|i: int| 0 <= i < releases.len() && releases[i] == release;
        assert(more[i] == release);
    }
    assert(more[releases.len() as int] == last);
    if more.contains(release) {
        let i = choose|i: int| 0 <= i < more.len() && more[i] == release;
        if i < releases.len() {
            assert(releases[i] == release);
        }
    }
}

/// Semantic versions are what `semver` accepts, and newer is what it puts above. This
/// holds of pre-releases and of build metadata as of every other version.
pub proof fn semver_scale_is_semver(version: Seq<char>, other: Seq<char>, current: Seq<char>)
    ensures
        Scale::Semver.reads(version) == is_semver(version),
        Scale::Semver.newer(other, current) <==> is_semver(other) && is_semver(current)
            && semver_exceeds(other, current),
        Scale::Semver.suits(version),
{
}

/// The scale of numbers reads three numbers, and newer is the one that has the greater
/// number in the first place that differs. It suits whatever has neither a pre-release
/// part nor build metadata.
pub proof fn number_scale_is_by_numbers(version: Seq<char>, other: Seq<char>, current: Seq<char>)
    ensures
        Scale::Numbers.reads(version) == (plain_version(version) is Some),
        Scale::Numbers.newer(other, current) <==> match (
            plain_version(other),
            plain_version(current),
        ) {
            (Some(o), Some(c)) => o.0 > c.0 || (o.0 == c.0 && o.1 > c.1) || (o.0 == c.0 && o.1
                == c.1 && o.2 > c.2),
            _ => false,
        },
        Scale::Numbers.suits(version) <==> !version.contains('-') && !version.contains('+'),
{
}

/// The latest release is the greatest by `semver`: no version that `semver` accepts is
/// above it, and those behind it are below. Only where `semver` accepts none is it one
/// that is not accepted, and then it is the last.
pub proof fn latest_is_greatest(releases: Seq<ReleaseView>, at: int)
    requires
        is_latest(Scale::Semver, releases, at),
    ensures
        0 <= at < releases.len(),
        forall|i: int|
            0 <= i < releases.len() && is_semver((#[trigger] releases[i]).version) ==> {
                &&& is_semver(releases[at].version)
                &&& i < at ==> !semver_exceeds(releases[i].version, releases[at].version)
                &&& i > at ==> semver_exceeds(releases[at].version, releases[i].version)
            },
        (forall|i: int| 0 <= i < releases.len() ==> !is_semver((#[trigger] releases[i]).version))
            ==> at == releases.len() - 1,
{
    assert forall|i: int| 0 <= i < releases.len() && is_semver(
        (#[trigger] releases[i]).version,
    ) implies {
        &&& is_semver(releases[at].version)
        &&& i < at ==> !semver_exceeds(releases[i].version, releases[at].version)
        &&& i > at ==> semver_exceeds(releases[at].version, releases[i].version)
    } by {
        assert(Scale::Semver.reads(releases[i].version));
        assert(some_read(Scale::Semver, releases));
    }
    if !some_read(Scale::Semver, releases) {
    } else {
        let i = choose|i: int|
            0 <= i < releases.len() && Scale::Semver.reads((#[trigger] releases[i]).version);
        assert(is_semver(releases[i].version));
    }
}

/// The releases for a target are chosen one by one, in their order: those of a list made up
/// of two are those of the first and then those of the second, and a single release is
/// kept exactly if the target stands in the name of one of its assets.
pub proof fn targets_are_chosen_one_by_one(
    first: Seq<ReleaseView>,
    second: Seq<ReleaseView>,
    release: ReleaseView,
    target: Seq<char>,
)
    ensures
        for_target(first + second, target) == for_target(first, target) + for_target(
            second,
            target,
        ),
        for_target(Seq::empty(), target) == Seq::<ReleaseView>::empty(),
        for_target(seq![release], target) == if exists|i: int|
            #![trigger release.assets[i]]
            0 <= i < release.assets.len() && exists|before: Seq<char>, behind: Seq<char>|
                release.assets[i].name == #[trigger] (before + target + behind) {
            seq![release]
        } else {
            Seq::empty()
        },
{
    reveal(Seq::filter);
    let fits = |r: ReleaseView| r.has_target(target);
    Seq::filter_distributes_over_add(first, second, fits);
    target_stands_in_an_asset_name(release, target);
    let one = seq![release];
    assert(one.drop_last() =~= Seq::empty());
    assert(one.last() == release);
    assert(Seq::<ReleaseView>::empty().filter(fits) =~= Seq::empty());
    assert(one.filter(fits) =~= if fits(release) {
        one
    } else {
        Seq::empty()
    });
}

/// The newer releases are chosen one by one, in their order: those of a list made up of two
/// are those of the first and then those of the second, and a single release is kept
/// exactly if `semver` accepts its version and the current one and puts it above.
pub proof fn newer_releases_are_chosen_one_by_one(
    first: Seq<ReleaseView>,
    second: Seq<ReleaseView>,
    release: ReleaseView,
    current: Seq<char>,
)
    ensures
        newer_than(Scale::Semver, first + second, current) == newer_than(
            Scale::Semver,
            first,
            current,
        ) + newer_than(Scale::Semver, second, current),
        newer_than(Scale::Semver, Seq::empty(), current) == Seq::<ReleaseView>::empty(),
        newer_than(Scale::Semver, seq![release], current) == if is_semver(release.version)
            && is_semver(current) && semver_exceeds(release.version, current) {
            seq![release]
        } else {
            Seq::empty()
        },
{
    reveal(Seq::filter);
    let fits = |r: ReleaseView| Scale::Semver.newer(r.version, current);
    Seq::filter_distributes_over_add(first, second, fits);
    let one = seq![release];
    assert(one.drop_last() =~= Seq::empty());
    assert(one.last() == release);
    assert(Seq::<ReleaseView>::empty().filter(fits) =~= Seq::empty());
    assert(one.filter(fits) =~= if fits(release) {
        one
    } else {
        Seq::empty()
    });
}

/// Releases put in other places are the same releases, each as often as before.
proof fn lemma_places_keep_counts(
    releases: Seq<ReleaseView>,
    sorted: Seq<ReleaseView>,
    places: Seq<int>,
)
    requires
        sorted.len() == releases.len(),
        is_permutation(places, releases.len() as int),
        forall|a: int| 0 <= a < sorted.len() ==> #[trigger] sorted[a] == releases[places[a]],
    ensures
        sorted.to_multiset() == releases.to_multiset(),
    decreases releases.len(),
{
    let n = releases.len() as int;
    if n == 0 {
        assert(sorted =~= releases);
    } else {
        assert(places.contains(n - 1));
        let a = choose|a: int| 0 <= a < places.len() && places[a] == n - 1;
        let fewer = releases.drop_last();
        let rest = sorted.remove(a);
        let others = places.remove(a);
        assert forall|k: int| 0 <= k < n - 1 implies 0 <= #[trigger] others[k] < n - 1 by {
            if k < a {
                assert(others[k] == places[k]);
            } else {
                assert(others[k] == places[k + 1]);
            }
        }
        assert forall|x: int| 0 <= x < n - 1 implies #[trigger] others.contains(x) by {
            assert(places.contains(x));
            let b = choose|b: int| 0 <= b < places.len() && places[b] == x;
            if b < a {
                assert(others[b] == x);
            } else {
                assert(others[b - 1] == x);
            }
        }
        assert forall|k: int| 0 <= k < rest.len() implies #[trigger] rest[k] == fewer[others[k]] by {
            if k < a {
                assert(rest[k] == sorted[k]);
            } else {
                assert(rest[k] == sorted[k + 1]);
            }
        }
        lemma_places_keep_counts(fewer, rest, others);
        assert(releases =~= fewer.push(releases.last()));
        fewer.to_multiset_ensures();
        sorted.to_multiset_ensures();
        assert(sorted[a] == releases.last());
        assert(sorted.contains(sorted[a]));
        assert(sorted.to_multiset() =~= rest.to_multiset().insert(sorted[a]));
    }
}

/// Sorting by `semver` keeps every release as often as it was there, and puts none in front
/// of one that `semver` puts below it.
pub proof fn sorted_releases_rise(releases: Seq<ReleaseView>, sorted: Seq<ReleaseView>)
    requires
        oldest_first(Scale::Semver, releases, sorted),
        forall|i: int| 0 <= i < releases.len() ==> is_semver((#[trigger] releases[i]).version),
    ensures
        sorted.to_multiset() == releases.to_multiset(),
        forall|a: int, b: int|
            0 <= a < b < sorted.len() ==> !semver_exceeds(
                (#[trigger] sorted[a]).version,
                (#[trigger] sorted[b]).version,
            ),
{
    let p = choose|places: Seq<int>| is_arranged(Scale::Semver, releases, sorted, places);
    lemma_places_keep_counts(releases, sorted, p);
    assert forall|a: int, b: int| 0 <= a < b < sorted.len() implies !semver_exceeds(
        (#[trigger] sorted[a]).version,
        (#[trigger] sorted[b]).version,
    ) by {
        sorted_versions_do_not_fall(Scale::Semver, releases, sorted, a, b);
        assert(sorted[a] == releases[p[a]]);
        assert(sorted[b] == releases[p[b]]);
    }
}

/// Of releases of which `semver` puts neither above the other, sorting puts those first
/// that were listed later.
pub proof fn of_equals_the_later_listed_comes_first(
    releases: Seq<ReleaseView>,
    sorted: Seq<ReleaseView>,
)
    requires
        oldest_first(Scale::Semver, releases, sorted),
        forall|i: int| 0 <= i < releases.len() ==> is_semver((#[trigger] releases[i]).version),
    ensures
        exists|places: Seq<int>|
            {
                &&& #[trigger] places.len() == releases.len() && sorted.len() == releases.len()
                &&& forall|a: int|
                    0 <= a < sorted.len() ==> 0 <= #[trigger] places[a] < releases.len()
                        && sorted[a] == releases[places[a]]
                &&& forall|a: int, b: int|
                    0 <= a < b < sorted.len() ==> #[trigger] places[a] != #[trigger] places[b] && (
                    !semver_exceeds(sorted[b].version, sorted[a].version) ==> places[a]
                        > places[b])
            },
{
    let p = choose|places: Seq<int>| is_arranged(Scale::Semver, releases, sorted, places);
    assert(p.len() == releases.len());
    assert forall|a: int| 0 <= a < sorted.len() implies 0 <= #[trigger] p[a] < releases.len()
        && sorted[a] == releases[p[a]] by {
        assert(sorted[a] == sorted[a]);
    }
    assert forall|a: int, b: int| 0 <= a < b < sorted.len() implies #[trigger] p[a]
        != #[trigger] p[b] && (!semver_exceeds(sorted[b].version, sorted[a].version) ==> p[a]
        > p[b]) by {
        assert(belongs_before(Scale::Semver, releases, p[a], p[b]));
        assert(sorted[a] == releases[p[a]]);
        assert(sorted[b] == releases[p[b]]);
    }
}

} // verus!
