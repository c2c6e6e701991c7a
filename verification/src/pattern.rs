//! The pattern by which the key of an object tells a release.

use vstd::prelude::*;

use crate::errors::UpdateError;
use crate::text::{has_text, is_digit, occurs_at};

verus! {

/// The form of a key that belongs to a release: an optional path, the name, a dash, an
/// optional `v`, three numbers, a dash, and more.
pub const RELEASE_KEY_PATTERN: &'static str =
    r"(?i)(?P<prefix>.*/)*(?P<name>.+)-[v]{0,1}(?P<version>\d+\.\d+\.\d+)-.+";

/// `regex`'s compiled pattern, carried through as it is.
#[verifier::external_type_specification]
#[verifier::external_body]
pub struct ExRegex(regex::Regex);

/// What the groups `first` and `second` capture where `regex::Regex::captures` finds
/// `pattern` in `text` and both take part in the match.
pub uninterp spec fn regex_captures(
    pattern: Seq<char>,
    text: Seq<char>,
    first: Seq<char>,
    second: Seq<char>,
) -> Option<(Seq<char>, Seq<char>)>;

/// The compiled pattern of release keys, together with its source.
pub struct KeyPattern {
    regex: regex::Regex,
    source: String,
}

impl View for KeyPattern {
    type V = Seq<char>;

    closed spec fn view(&self) -> Seq<char> {
        self.source@
    }
}

/// `text` does not hold the character `c`.
pub open spec fn lacks(text: Seq<char>, c: char) -> bool {
    forall|i: int| 0 <= i < text.len() ==> #[trigger] text[i] != c
}

/// `text` is a row of decimal digits of ASCII.
pub open spec fn is_digits(text: Seq<char>) -> bool {
    &&& text.len() > 0
    &&& forall|i: int| 0 <= i < text.len() ==> is_digit(#[trigger] text[i])
}

/// `version` is three rows of decimal digits with dots between them.
pub open spec fn is_version_number(version: Seq<char>) -> bool {
    exists|major: Seq<char>, minor: Seq<char>, patch: Seq<char>| #[trigger]
        is_digits(major) && #[trigger] is_digits(minor) && #[trigger] is_digits(patch) && version
            == major + "."@ + minor + "."@ + patch
}

/// `text` is a row of digits. Of characters outside ASCII it is not said which are
/// digits.
pub open spec fn is_digit_row(text: Seq<char>) -> bool {
    &&& text.len() > 0
    &&& forall|i: int|
        0 <= i < text.len() && (#[trigger] text[i] as int) < 128 ==> is_digit(text[i])
}

/// `version` is three rows of digits with dots between them. Digits of other scripts
/// count as digits.
pub open spec fn looks_like_version(version: Seq<char>) -> bool {
    exists|major: Seq<char>, minor: Seq<char>, patch: Seq<char>| #[trigger]
        is_digit_row(major) && #[trigger] is_digit_row(minor) && #[trigger] is_digit_row(patch)
            && version == major + "."@ + minor + "."@ + patch
}

/// `marker` can stand before a version.
pub open spec fn is_marker(marker: Seq<char>) -> bool {
    marker == Seq::<char>::empty() || marker == seq!['v'] || marker == seq!['V']
}

/// `name` and `version` stand in `key` as in a key of a release: with a dash and perhaps
/// a `v` between them, and a dash behind them.
pub open spec fn names_release(key: Seq<char>, name: Seq<char>, version: Seq<char>) -> bool {
    exists|marker: Seq<char>| #[trigger]
        is_marker(marker) && has_text(key, name + "-"@ + marker + version + "-"@)
}

/// Somewhere in `key` a version stands between dashes, with another character of the
/// same line on either side.
pub open spec fn holds_version(key: Seq<char>) -> bool {
    exists|before: char, marker: Seq<char>, version: Seq<char>, behind: char|
        #![trigger is_marker(marker), is_version_number(version), seq![before], seq![behind]]
        {
            &&& before != '\n'
            &&& is_marker(marker)
            &&& is_version_number(version)
            &&& behind != '\n'
            &&& has_text(key, seq![before] + "-"@ + marker + version + "-"@ + seq![behind])
        }
}

/// The parts of the key under which a release is published:
/// `directory/name-version-rest`, where a `v` may stand before the version.
pub struct KeyParts {
    /// Empty, or up to and with the last slash.
    pub directory: Seq<char>,
    pub name: Seq<char>,
    pub marker: Seq<char>,
    pub version: Seq<char>,
    /// The target, the kind of archive and the like.
    pub rest: Seq<char>,
}

/// From position `at` on stands what the pattern takes for a version: perhaps a `v`, three
/// rows of digits with dots between them, a dash, and another character.
pub open spec fn version_follows(text: Seq<char>, at: int) -> bool {
    exists|marker: Seq<char>, version: Seq<char>| #[trigger]
        is_marker(marker) && #[trigger] looks_like_version(version) && occurs_at(
            text,
            marker + version + "-"@,
            at,
        ) && at + marker.len() + version.len() + 1 < text.len()
}

impl KeyParts {
    /// What follows the directory.
    pub open spec fn file(self) -> Seq<char> {
        self.name + "-"@ + self.marker + self.version + "-"@ + self.rest
    }

    /// The key.
    pub open spec fn key(self) -> Seq<char> {
        self.directory + self.file()
    }

    /// The parts are in order. Behind the version no dash is followed by what the pattern
    /// takes for another.
    pub open spec fn is_published(self) -> bool {
        &&& self.directory.len() > 0 ==> self.directory.last() == '/'
        &&& lacks(self.directory, '\n')
        &&& self.name.len() > 0 && lacks(self.name, '/') && lacks(self.name, '\n')
        &&& is_marker(self.marker)
        &&& is_version_number(self.version)
        &&& self.rest.len() > 0 && lacks(self.rest, '/') && lacks(self.rest, '\n')
        &&& forall|i: int|
            0 <= i < self.rest.len() && (i > 0 ==> self.rest[i - 1] == '-')
                ==> !#[trigger] version_follows(self.rest, i)
    }
}

/// The pattern of release keys and its two groups were asked for.
pub open spec fn asks_release(pattern: Seq<char>, first: Seq<char>, second: Seq<char>) -> bool {
    pattern == RELEASE_KEY_PATTERN@ && first == "name"@ && second == "version"@
}

/// What the pattern of release keys, as it is written, says of a captured name and
/// version.
pub open spec fn is_faithful(text: Seq<char>, captured: Option<(Seq<char>, Seq<char>)>) -> bool {
    &&& captured matches Some((name, version)) ==> {
        &&& name.len() > 0
        &&& lacks(name, '\n')
        &&& looks_like_version(version)
        &&& names_release(text, name, version)
    }
    &&& holds_version(text) ==> captured is Some
    &&& forall|p: KeyParts| #[trigger]
        p.is_published() && p.key() == text ==> captured == Some((p.name, p.version))
}

/// The name and the version that the key of a release holds. A key that does not have
/// the form of one holds none.
pub open spec fn release_captures(key: Seq<char>) -> Option<(Seq<char>, Seq<char>)> {
    regex_captures(RELEASE_KEY_PATTERN@, key, "name"@, "version"@)
}

/// What the texts of an optional pair are.
pub open spec fn pair_texts(pair: Option<(String, String)>) -> Option<(Seq<char>, Seq<char>)> {
    match pair {
        Some((first, second)) => Some((first@, second@)),
        None => None,
    }
}

/// `regex::Regex::new` on the pattern of release keys: the compiled pattern.
///
/// The pattern is written in the syntax that `regex` documents, and its compiled form
/// is far below the size that `regex` limits compiled patterns to, so it is accepted.
#[verifier::external_body]
fn compile(source: &str) -> (compiled: Result<KeyPattern, String>)
    requires
        source@ == RELEASE_KEY_PATTERN@,
    ensures
        compiled is Ok,
        compiled matches Ok(pattern) ==> pattern@ == source@,
{
    match regex::Regex::new(source) {
        Ok(regex) => Ok(KeyPattern { regex, source: source.to_string() }),
        Err(error) => Err(error.to_string()),
    }
}

impl KeyPattern {
    #[verifier::type_invariant]
    closed spec fn is_of_release_keys(self) -> bool {
        self.source@ == RELEASE_KEY_PATTERN@
    }

    /// `regex::Regex::captures`, and the two named groups of the match.
    ///
    /// What a pattern matches, and what its groups capture, is left to the name. Of the
    /// pattern of release keys it says besides what is written in it. A captured name is
    /// not empty and on one line, a captured version is three rows of digits, and both
    /// stand in the text as in the key of a release. A text in which a version stands
    /// between dashes is matched. Of the key of a published release the parts are
    /// captured: the path takes all up to the last slash, and the name is as long as the
    /// rest of the pattern permits.
    #[verifier::external_body]
    fn captures(&self, text: &str, first: &str, second: &str) -> (pair: Option<(String, String)>)
        ensures
            pair_texts(pair) == regex_captures(self@, text@, first@, second@),
            asks_release(self@, first@, second@) ==> is_faithful(text@, pair_texts(pair)),
    {
        let captures = self.regex.captures(text)?;
        let first = captures.name(first)?.as_str().to_string();
        let second = captures.name(second)?.as_str().to_string();
        Some((first, second))
    }

    /// The pattern of release keys. It is never refused.
    pub fn new() -> (pattern: Result<KeyPattern, UpdateError>)
        ensures
            pattern is Ok,
            pattern matches Ok(compiled) ==> compiled@ == RELEASE_KEY_PATTERN@,
    {
        match compile(RELEASE_KEY_PATTERN) {
            Ok(compiled) => Ok(compiled),
            Err(account) => Err(
                UpdateError::Release(
                    "Failed constructing regex to parse S3 filenames: ".to_owned().concat(
                        account.as_str(),
                    ),
                ),
            ),
        }
    }

    /// The name and the version that a key holds.
    pub fn read_release(&self, key: &str) -> (pair: Option<(String, String)>)
        ensures
            pair_texts(pair) == release_captures(key@),
            is_faithful(key@, release_captures(key@)),
    {
        proof {
            use_type_invariant(self);
        }
        self.captures(key, "name", "version")
    }
}

/// A version number is of digits and dots, and begins with a digit.
pub proof fn lemma_version_number(version: Seq<char>)
    requires
        is_version_number(version),
    ensures
        version.len() > 0,
        is_digit(version[0]),
        forall|i: int|
            0 <= i < version.len() ==> is_digit(#[trigger] version[i]) || version[i] == '.',
        looks_like_version(version),
{
    reveal_strlit(".");
    let (major, minor, patch) = choose|major: Seq<char>, minor: Seq<char>, patch: Seq<char>|
        #[trigger] is_digits(major) && #[trigger] is_digits(minor) && #[trigger] is_digits(patch)
            && version == major + "."@ + minor + "."@ + patch;
    assert(is_digit_row(major) && is_digit_row(minor) && is_digit_row(patch));
    assert(version[0] == major[0]);
    assert forall|i: int| 0 <= i < version.len() implies is_digit(#[trigger] version[i])
        || version[i] == '.' by {
        let m = major.len() as int;
        let n = minor.len() as int;
        if i < m {
            assert(version[i] == major[i]);
        } else if i == m {
            assert(version[i] == "."@[0]);
        } else if i < m + 1 + n {
            assert(version[i] == minor[i - m - 1]);
        } else if i == m + 1 + n {
            assert(version[i] == "."@[0]);
        } else {
            assert(version[i] == patch[i - m - n - 2]);
        }
    }
}

/// What looks like a version is not empty, and begins with a digit or with a character
/// outside ASCII.
pub proof fn lemma_looks_like_version(version: Seq<char>)
    requires
        looks_like_version(version),
    ensures
        version.len() > 0,
        (version[0] as int) < 128 ==> is_digit(version[0]),
{
    let (major, minor, patch) = choose|major: Seq<char>, minor: Seq<char>, patch: Seq<char>|
        #[trigger] is_digit_row(major) && #[trigger] is_digit_row(minor) && #[trigger]
            is_digit_row(patch) && version == major + "."@ + minor + "."@ + patch;
    assert(version[0] == major[0]);
}

/// The characters of the file of a published key, by position.
pub proof fn lemma_file_chars(p: KeyParts)
    requires
        p.is_published(),
    ensures
        p.file().len() == p.name.len() + p.marker.len() + p.version.len() + p.rest.len() + 2,
        forall|i: int| 0 <= i < p.name.len() ==> #[trigger] p.file()[i] == p.name[i],
        p.file()[p.name.len() as int] == '-',
        forall|i: int|
            0 <= i < p.marker.len() ==> p.file()[p.name.len() + 1 + i] == #[trigger] p.marker[i],
        forall|i: int|
            0 <= i < p.version.len() ==> p.file()[p.name.len() + 1 + p.marker.len() + i]
                == #[trigger] p.version[i],
        p.file()[p.name.len() + 1 + p.marker.len() + p.version.len() as int] == '-',
        forall|i: int|
            0 <= i < p.rest.len() ==> p.file()[p.name.len() + 2 + p.marker.len() + p.version.len()
                + i] == #[trigger] p.rest[i],
        lacks(p.file(), '/'),
{
    reveal_strlit("-");
    lemma_version_number(p.version);
    let file = p.file();
    let n = p.name.len() as int;
    let m = p.marker.len() as int;
    let v = p.version.len() as int;
    assert(file[n] == "-"@[0]);
    assert(file[n + 1 + m + v] == "-"@[0]);
    assert forall|i: int| 0 <= i < file.len() implies #[trigger] file[i] != '/' by {
        if i < n {
            assert(file[i] == p.name[i]);
        } else if n < i < n + 1 + m {
            assert(file[i] == p.marker[i - n - 1]);
        } else if n + 1 + m <= i < n + 1 + m + v {
            assert(file[i] == p.version[i - n - 1 - m]);
        } else if i > n + 1 + m + v {
            assert(file[i] == p.rest[i - n - 2 - m - v]);
        }
    }
}

/// The directory in one reading of a published key is no longer than in another.
proof fn lemma_directory(p: KeyParts, q: KeyParts)
    requires
        p.is_published(),
        q.is_published(),
        p.key() == q.key(),
    ensures
        p.directory.len() <= q.directory.len(),
{
    lemma_file_chars(q);
    if p.directory.len() > q.directory.len() {
        let last = p.directory.len() - 1;
        assert(p.key().len() == p.directory.len() + p.file().len());
        assert(q.key().len() == q.directory.len() + q.file().len());
        assert(p.key()[last] == '/');
        assert(q.key()[last] == q.file()[last - q.directory.len()]);
    }
}

/// The version of one reading of a file that begins at position `i` of the rest of another
/// follows there.
proof fn lemma_second_version(p: KeyParts, q: KeyParts, i: int)
    requires
        p.is_published(),
        q.is_published(),
        p.file() == q.file(),
        0 <= i,
        p.name.len() + 2 + p.marker.len() + p.version.len() + i == q.name.len() + 1,
    ensures
        version_follows(p.rest, i),
{
    reveal_strlit("-");
    lemma_file_chars(p);
    lemma_file_chars(q);
    lemma_version_number(q.version);
    let file = p.file();
    let at = q.name.len() + 1;
    let needle = q.marker + q.version + "-"@;
    assert forall|k: int| 0 <= k < needle.len() implies #[trigger] p.rest[i + k] == needle[k] by {
        assert(file[at + k] == p.rest[i + k]);
        if k < q.marker.len() {
            assert(q.file()[at + k] == q.marker[k]);
        } else if k < q.marker.len() + q.version.len() {
            let c = k - q.marker.len();
            assert(q.file()[at + q.marker.len() + c] == q.version[c]);
        }
    }
    assert(p.rest.subrange(i, i + needle.len()) =~= needle);
}

/// The name in one reading of a file is no shorter than in another.
proof fn lemma_name(p: KeyParts, q: KeyParts)
    requires
        p.is_published(),
        q.is_published(),
        p.file() == q.file(),
    ensures
        p.name.len() >= q.name.len(),
{
    reveal_strlit("-");
    lemma_file_chars(p);
    lemma_file_chars(q);
    lemma_version_number(p.version);
    lemma_version_number(q.version);
    if p.name.len() < q.name.len() {
        let file = p.file();
        let at = q.name.len() as int;
        let n = p.name.len() as int;
        let m = p.marker.len() as int;
        let v = p.version.len() as int;
        assert(file[at] == '-');
        if at < n + 1 + m {
            assert(file[at] == p.marker[at - n - 1]);
        } else if at < n + 1 + m + v {
            assert(file[at] == p.version[at - n - 1 - m]);
        } else {
            let i = at + 1 - (n + 2 + m + v);
            if i > 0 {
                assert(file[at] == p.rest[i - 1]);
            }
            lemma_second_version(p, q, i);
        }
    }
}

/// The version of one reading of a file is no shorter than that of another, where both
/// begin alike.
proof fn lemma_version_length(p: KeyParts, q: KeyParts)
    requires
        p.is_published(),
        q.is_published(),
        p.file() == q.file(),
        p.name.len() == q.name.len(),
        p.marker.len() == q.marker.len(),
    ensures
        p.version.len() >= q.version.len(),
{
    lemma_file_chars(p);
    lemma_file_chars(q);
    lemma_version_number(q.version);
    if p.version.len() < q.version.len() {
        let i = p.version.len() as int;
        assert(p.file()[p.name.len() + 1 + p.marker.len() + i] == '-');
        assert(q.file()[q.name.len() + 1 + q.marker.len() + i] == q.version[i]);
    }
}

/// A published key has one reading: the key determines the name and the version under
/// which the release is published.
pub proof fn published_key_determines_release(p: KeyParts, q: KeyParts)
    requires
        p.is_published(),
        q.is_published(),
        p.key() == q.key(),
    ensures
        p.directory == q.directory,
        p.name == q.name,
        p.marker == q.marker,
        p.version == q.version,
        p.rest == q.rest,
{
    lemma_directory(p, q);
    lemma_directory(q, p);
    let d = p.directory.len() as int;
    assert(p.directory =~= p.key().take(d));
    assert(q.directory =~= q.key().take(d));
    assert(p.file() =~= p.key().skip(d));
    assert(q.file() =~= q.key().skip(d));
    lemma_name(p, q);
    lemma_name(q, p);
    lemma_file_chars(p);
    lemma_file_chars(q);
    lemma_version_number(p.version);
    lemma_version_number(q.version);
    let file = p.file();
    let n = p.name.len() as int;
    assert(p.name =~= file.take(n));
    assert(q.name =~= file.take(n));
    if p.marker.len() != q.marker.len() {
        let (longer, shorter) = if p.marker.len() > q.marker.len() {
            (p, q)
        } else {
            (q, p)
        };
        assert(longer.file()[n + 1 + 0] == longer.marker[0]);
        assert(shorter.file()[n + 1 + 0 + 0] == shorter.version[0]);
    }
    let m = p.marker.len() as int;
    assert(p.marker =~= q.marker) by {
        assert forall|i: int| 0 <= i < m implies p.marker[i] == q.marker[i] by {
            assert(file[n + 1 + i] == p.marker[i]);
            assert(file[n + 1 + i] == q.marker[i]);
        }
    }
    lemma_version_length(p, q);
    lemma_version_length(q, p);
    let v = p.version.len() as int;
    assert(p.version =~= q.version) by {
        assert forall|i: int| 0 <= i < v implies p.version[i] == q.version[i] by {
            assert(file[n + 1 + m + i] == p.version[i]);
            assert(file[n + 1 + m + i] == q.version[i]);
        }
    }
    assert(p.rest =~= q.rest) by {
        assert forall|i: int| 0 <= i < p.rest.len() implies p.rest[i] == q.rest[i] by {
            assert(file[n + 2 + m + v + i] == p.rest[i]);
            assert(file[n + 2 + m + v + i] == q.rest[i]);
        }
    }
}

/// The name and the version of a key are what the groups of these names capture in it,
/// where the pattern matches, and nothing is done to them.
pub proof fn release_is_what_the_pattern_captures(key: Seq<char>)
    ensures
        release_captures(key) == regex_captures(
            r"(?i)(?P<prefix>.*/)*(?P<name>.+)-[v]{0,1}(?P<version>\d+\.\d+\.\d+)-.+"@,
            key,
            "name"@,
            "version"@,
        ),
{
}

/// A key of a directory, a name, a dash, perhaps a `v`, three rows of digits with dots
/// between them, a dash and a target tells the name and the digits, where no dash of the
/// target is followed by a digit or a `v`.
pub proof fn published_key_tells_name_and_version(
    directory: Seq<char>,
    name: Seq<char>,
    marker: Seq<char>,
    rows: Seq<Seq<char>>,
    target: Seq<char>,
    captured: Option<(Seq<char>, Seq<char>)>,
)
    requires
        directory.len() > 0 ==> directory.last() == '/',
        forall|k: int| 0 <= k < directory.len() ==> #[trigger] directory[k] != '\n',
        name.len() > 0,
        forall|k: int| 0 <= k < name.len() ==> #[trigger] name[k] != '/' && name[k] != '\n',
        marker == Seq::<char>::empty() || marker == seq!['v'] || marker == seq!['V'],
        rows.len() == 3,
        forall|i: int| 0 <= i < 3 ==> (#[trigger] rows[i]).len() > 0,
        forall|i: int, k: int|
            0 <= i < 3 && 0 <= k < rows[i].len() ==> '0' <= #[trigger] rows[i][k] <= '9',
        target.len() > 0,
        forall|k: int|
            0 <= k < target.len() ==> #[trigger] target[k] != '/' && target[k] != '\n' && (k == 0
                || target[k - 1] == '-' ==> (target[k] as int) < 128 && !('0' <= target[k] <= '9')
                && target[k] != 'v' && target[k] != 'V'),
        is_faithful(
            directory + (name + "-"@ + marker + (rows[0] + "."@ + rows[1] + "."@ + rows[2]) + "-"@
                + target),
            captured,
        ),
    ensures
        captured == Some((name, rows[0] + "."@ + rows[1] + "."@ + rows[2])),
{
    let version = rows[0] + "."@ + rows[1] + "."@ + rows[2];
    let p = KeyParts { directory, name, marker, version, rest: target };
    assert(is_digits(rows[0]) && is_digits(rows[1]) && is_digits(rows[2]));
    assert forall|i: int|
        0 <= i < target.len() && (i > 0 ==> target[i - 1] == '-') implies !#[trigger] version_follows(
        target,
        i,
    ) by {
        if version_follows(target, i) {
            let (m, v) = choose|m: Seq<char>, v: Seq<char>| #[trigger]
                is_marker(m) && #[trigger] looks_like_version(v) && occurs_at(
                    target,
                    m + v + "-"@,
                    i,
                ) && i + m.len() + v.len() + 1 < target.len();
            lemma_looks_like_version(v);
            let needle = m + v + "-"@;
            assert(target.subrange(i, i + needle.len())[0] == needle[0]);
            assert(target[i] == needle[0]);
            if m.len() > 0 {
                assert(needle[0] == m[0]);
            } else {
                assert(needle[0] == v[0]);
            }
        }
    }
    assert(p.is_published());
    assert(p.key() == directory + (name + "-"@ + marker + version + "-"@ + target));
}

/// An optional pair shows its two texts in their order.
pub proof fn pairs_show_their_texts(pair: Option<(String, String)>)
    ensures
        pair matches Some((first, second)) ==> pair_texts(pair) == Some((first@, second@)),
        pair is None ==> pair_texts(pair) is None,
{
}

} // verus!
