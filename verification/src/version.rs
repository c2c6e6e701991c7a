//! Comparing semantic versions.

use vstd::prelude::*;

use crate::errors::{ErrorView, UpdateError};
use crate::text::{is_digit, lemma_until, until, until_ends_at_the_first_stop};

verus! {

/// `semver`'s error, carried through as it is.
#[verifier::external_type_specification]
#[verifier::external_body]
pub struct ExSemverError(semver::Error);

/// Whether `semver::Version::parse` accepts `text`.
pub uninterp spec fn is_semver(text: Seq<char>) -> bool;

/// Whether the version that `text` is parsed to is greater, by `semver::Version`'s
/// order, than the one that `other` is parsed to.
pub uninterp spec fn semver_exceeds(text: Seq<char>, other: Seq<char>) -> bool;

/// The number that the digits of `digits` write.
pub open spec fn numeral_value(digits: Seq<char>) -> nat
    decreases digits.len(),
{
    if digits.len() == 0 {
        0
    } else {
        (10 * numeral_value(digits.drop_last()) + (digits.last() as int - '0' as int)) as nat
    }
}

/// `digits` writes a number of 64 bits, without leading zeros.
pub open spec fn is_numeral(digits: Seq<char>) -> bool {
    &&& digits.len() > 0
    &&& forall|i: int| 0 <= i < digits.len() ==> is_digit(#[trigger] digits[i])
    &&& digits.len() > 1 ==> digits[0] != '0'
    &&& numeral_value(digits) <= u64::MAX
}

/// The three numbers of a text `major.minor.patch`.
pub open spec fn plain_version(text: Seq<char>) -> Option<(nat, nat, nat)> {
    let major = until(text, '.');
    let rest = text.skip((major.len() + 1) as int);
    let minor = until(rest, '.');
    let patch = rest.skip((minor.len() + 1) as int);
    if text.contains('.') && rest.contains('.') && is_numeral(major) && is_numeral(minor)
        && is_numeral(patch) {
        Some((numeral_value(major), numeral_value(minor), numeral_value(patch)))
    } else {
        None
    }
}

/// `text` has neither a pre-release part nor build metadata, and is no three numbers.
pub open spec fn is_malformed_plain(text: Seq<char>) -> bool {
    &&& !text.contains('-')
    &&& !text.contains('+')
    &&& plain_version(text) is None
}

/// The first three numbers come behind the second three.
pub open spec fn numbers_exceed(a: (nat, nat, nat), b: (nat, nat, nat)) -> bool {
    ||| a.0 > b.0
    ||| a.0 == b.0 && a.1 > b.1
    ||| a.0 == b.0 && a.1 == b.1 && a.2 > b.2
}

/// Whether `other` comes behind `current`, where both are three numbers.
pub open spec fn plain_bump(current: Seq<char>, other: Seq<char>) -> Option<bool> {
    match (plain_version(current), plain_version(other)) {
        (Some(c), Some(o)) => Some(numbers_exceed(o, c)),
        _ => None,
    }
}

/// `other` lies above `current` and above every version that `current` is not below.
pub open spec fn lies_above(other: Seq<char>, current: Seq<char>) -> bool {
    &&& !semver_exceeds(current, other)
    &&& forall|third: Seq<char>|
        #![trigger semver_exceeds(third, current)]
        #![trigger semver_exceeds(other, third)]
        is_semver(third) && !semver_exceeds(third, current) ==> semver_exceeds(other, third)
            && !semver_exceeds(third, other)
}

/// What lies above `current` lies above `other` too.
pub open spec fn lies_not_above(other: Seq<char>, current: Seq<char>) -> bool {
    forall|third: Seq<char>|
        #![trigger semver_exceeds(third, current)]
        #![trigger semver_exceeds(third, other)]
        is_semver(third) && semver_exceeds(third, current) ==> semver_exceeds(third, other)
}

/// What the answer `greater` to whether `other` exceeds `current` says of every third
/// version.
pub open spec fn places(greater: bool, other: Seq<char>, current: Seq<char>) -> bool {
    if greater {
        lies_above(other, current)
    } else {
        lies_not_above(other, current)
    }
}

/// `version` up to its pre-release part and its build metadata.
pub open spec fn core_of(version: Seq<char>) -> Seq<char> {
    until(until(version, '-'), '+')
}

/// `version` has a pre-release part.
pub open spec fn has_pre_release(version: Seq<char>) -> bool {
    core_of(version).len() < version.len() && version[core_of(version).len() as int] == '-'
}

/// The answer `greater` to whether `other` exceeds `current` goes by the three numbers that
/// each begins with, and where they are the same a version without a pre-release part
/// exceeds one with it.
pub open spec fn respects_numbers(greater: bool, other: Seq<char>, current: Seq<char>) -> bool {
    match (plain_version(core_of(other)), plain_version(core_of(current))) {
        (Some(o), Some(c)) => {
            &&& numbers_exceed(o, c) ==> greater
            &&& numbers_exceed(c, o) ==> !greater
            &&& o == c && !has_pre_release(other) && has_pre_release(current) ==> greater
            &&& o == c && has_pre_release(other) && !has_pre_release(current) ==> !greater
        },
        _ => false,
    }
}

/// `version` is `release`, which is three numbers, with a pre-release part behind it.
pub open spec fn is_pre_release_of(version: Seq<char>, release: Seq<char>) -> bool {
    &&& plain_version(release) is Some
    &&& release.len() < version.len()
    &&& version.take(release.len() as int) == release
    &&& version[release.len() as int] == '-'
}

/// `semver::Version::parse` on both texts, and `>` on the two versions.
///
/// There is an answer where both texts are semantic versions, and it is that of the
/// order of `semver::Version`. That order is total, so an answer also places the two
/// versions relative to every third. Versions of three numbers compare by their
/// numbers, and a text without pre-release part and build metadata is accepted exactly if
/// it is three numbers of 64 bits without leading zeros. Every version begins with three
/// such numbers, which decide first, and a version without a pre-release part exceeds one
/// with it that has the same numbers. How else pre-release parts and build metadata are
/// written and compared is left to the names.
#[verifier::external_body]
fn semver_greater(current: &str, other: &str) -> (answer: Result<bool, semver::Error>)
    ensures
        answer is Ok <==> (is_semver(current@) && is_semver(other@)),
        answer matches Ok(greater) ==> greater == semver_exceeds(other@, current@),
        answer matches Ok(greater) ==> places(greater, other@, current@),
        is_malformed_plain(current@) || is_malformed_plain(other@) ==> answer is Err,
        plain_bump(current@, other@) matches Some(greater) ==> (answer is Ok && answer->Ok_0 == greater),
        answer matches Ok(greater) ==> respects_numbers(greater, other@, current@),
        plain_version(current@) is Some && is_semver(other@) ==> answer is Ok,
        plain_version(other@) is Some && is_semver(current@) ==> answer is Ok,
{
    Ok(semver::Version::parse(other)? > semver::Version::parse(current)?)
}

/// Whether `other` is a newer version than `current`, where both are versions.
pub open spec fn bump(current: Seq<char>, other: Seq<char>) -> Option<bool> {
    if is_semver(current) && is_semver(other) {
        Some(semver_exceeds(other, current))
    } else {
        None
    }
}

/// `other` is a newer version than `current`: both are versions, and `other` is greater.
pub open spec fn is_newer(other: Seq<char>, current: Seq<char>) -> bool {
    bump(current, other) == Some(true)
}

/// Check if a version is greater than the current.
///
/// Fails where one of the two texts is no semantic version.
pub fn bump_is_greater(current: &str, other: &str) -> (answer: Result<bool, UpdateError>)
    ensures
        answer is Ok <==> bump(current@, other@) is Some,
        answer matches Ok(greater) ==> bump(current@, other@) == Some(greater),
        answer matches Ok(greater) ==> places(greater, other@, current@),
        answer matches Err(error) ==> error@ == ErrorView::SemVer,
        is_malformed_plain(current@) || is_malformed_plain(other@) ==> answer is Err,
        plain_bump(current@, other@) matches Some(greater) ==> (answer is Ok && answer->Ok_0 == greater),
        answer is Ok <==> is_semver(current@) && is_semver(other@),
        answer matches Ok(greater) ==> greater == semver_exceeds(other@, current@),
        answer matches Ok(greater) ==> respects_numbers(greater, other@, current@),
        is_semver(current@) && is_pre_release_of(current@, other@) ==> answer == Ok::<
            bool,
            UpdateError,
        >(true),
        is_semver(other@) && is_pre_release_of(other@, current@) ==> answer == Ok::<
            bool,
            UpdateError,
        >(false),
{
    proof {
        if is_pre_release_of(current@, other@) {
            lemma_pre_release(current@, other@);
        }
        if is_pre_release_of(other@, current@) {
            lemma_pre_release(other@, current@);
        }
    }
    match semver_greater(current, other) {
        Ok(greater) => Ok(greater),
        Err(error) => Err(UpdateError::SemVer(error)),
    }
}

/// A text of three numbers is of digits and dots.
pub proof fn lemma_plain_chars(text: Seq<char>)
    requires
        plain_version(text) is Some,
    ensures
        forall|k: int| 0 <= k < text.len() ==> is_digit(#[trigger] text[k]) || text[k] == '.',
{
    let major = until(text, '.');
    let rest = text.skip((major.len() + 1) as int);
    let minor = until(rest, '.');
    let patch = rest.skip((minor.len() + 1) as int);
    until_ends_at_the_first_stop(text, '.');
    until_ends_at_the_first_stop(rest, '.');
    assert(major.len() < text.len()) by {
        if major.len() == text.len() {
            assert(text.take(text.len() as int) =~= text);
        }
    }
    assert(minor.len() < rest.len()) by {
        if minor.len() == rest.len() {
            assert(rest.take(rest.len() as int) =~= rest);
        }
    }
    assert forall|k: int| 0 <= k < text.len() implies is_digit(#[trigger] text[k]) || text[k]
        == '.' by {
        let m = major.len() as int;
        let n = minor.len() as int;
        if k < m {
            assert(text[k] == major[k]);
        } else if m < k < m + 1 + n {
            assert(text[k] == rest[k - m - 1]);
            assert(rest[k - m - 1] == minor[k - m - 1]);
        } else if k == m + 1 + n {
            assert(text[k] == rest[n]);
        } else if k > m + 1 + n {
            assert(text[k] == rest[k - m - 1]);
            assert(patch[k - m - 1 - n - 1] == rest[k - m - 1]);
        }
    }
}

/// The numbers of a pre-release are those of its release.
proof fn lemma_pre_release(version: Seq<char>, release: Seq<char>)
    requires
        is_pre_release_of(version, release),
    ensures
        core_of(version) == release,
        has_pre_release(version),
        core_of(release) == release,
        !has_pre_release(release),
{
    lemma_plain_chars(release);
    let n = release.len() as int;
    assert forall|k: int| 0 <= k < n implies version[k] == release[k] by {
        assert(version.take(n)[k] == release[k]);
    }
    lemma_until(version, '-', n);
    lemma_until(release, '-', n);
    lemma_until(release, '+', n);
    assert(release.take(n) =~= release);
}

/// A version is newer than another exactly if `semver` accepts both and puts it above.
pub proof fn newer_is_semver_order(other: Seq<char>, current: Seq<char>)
    ensures
        is_newer(other, current) <==> is_semver(other) && is_semver(current) && semver_exceeds(
            other,
            current,
        ),
        bump(current, other) is Some <==> is_semver(current) && is_semver(other),
        bump(current, other) matches Some(greater) ==> greater == semver_exceeds(other, current),
{
}

/// Three numbers compare place by place: the first place that differs decides.
pub proof fn first_difference_decides(a: (nat, nat, nat), b: (nat, nat, nat))
    ensures
        a.0 != b.0 ==> (numbers_exceed(a, b) <==> a.0 > b.0),
        a.0 == b.0 && a.1 != b.1 ==> (numbers_exceed(a, b) <==> a.1 > b.1),
        a.0 == b.0 && a.1 == b.1 ==> (numbers_exceed(a, b) <==> a.2 > b.2),
{
}

/// A digit more makes ten times the number, and the digit.
pub proof fn digits_write_decimal_numbers(digits: Seq<char>, digit: char)
    requires
        '0' <= digit <= '9',
    ensures
        numeral_value(digits.push(digit)) == 10 * numeral_value(digits) + (digit as int
            - '0' as int),
        numeral_value(Seq::empty()) == 0,
{
    assert(digits.push(digit).drop_last() =~= digits);
}

/// Three rows of digits without leading zeros, with dots between them, are read as the
/// numbers that they write.
pub proof fn three_numbers_are_read(rows: Seq<Seq<char>>)
    requires
        rows.len() == 3,
        forall|i: int|
            0 <= i < 3 ==> (#[trigger] rows[i]).len() > 0 && (rows[i].len() > 1 ==> rows[i][0]
                != '0') && numeral_value(rows[i]) <= u64::MAX,
        forall|i: int, k: int|
            0 <= i < 3 && 0 <= k < rows[i].len() ==> '0' <= #[trigger] rows[i][k] <= '9',
    ensures
        plain_version(rows[0] + "."@ + rows[1] + "."@ + rows[2]) == Some(
            (numeral_value(rows[0]), numeral_value(rows[1]), numeral_value(rows[2])),
        ),
{
    reveal_strlit(".");
    let (major, minor, patch) = (rows[0], rows[1], rows[2]);
    let text = major + "."@ + minor + "."@ + patch;
    let m = major.len() as int;
    let n = minor.len() as int;
    assert(text[m] == "."@[0]);
    assert forall|k: int| 0 <= k < m implies text[k] != '.' by {
        assert(text[k] == major[k]);
    }
    lemma_until(text, '.', m);
    assert(text.take(m) =~= major);
    let rest = text.skip(m + 1);
    assert(rest =~= minor + "."@ + patch);
    assert(rest[n] == "."@[0]);
    assert forall|k: int| 0 <= k < n implies rest[k] != '.' by {
        assert(rest[k] == minor[k]);
    }
    lemma_until(rest, '.', n);
    assert(rest.take(n) =~= minor);
    assert(rest.skip(n + 1) =~= patch);
    assert(text.contains('.') && rest.contains('.'));
    assert(is_numeral(major) && is_numeral(minor) && is_numeral(patch));
}

/// A release of three numbers with a dash and more behind it is a pre-release of it.
pub proof fn pre_release_is_written_behind_a_dash(release: Seq<char>, part: Seq<char>)
    requires
        plain_version(release) is Some,
    ensures
        is_pre_release_of(release + "-"@ + part, release),
{
    reveal_strlit("-");
    let version = release + "-"@ + part;
    assert(version.take(release.len() as int) =~= release);
    assert(version[release.len() as int] == "-"@[0]);
}

} // verus!
