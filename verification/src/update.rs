//! Asking, once at startup, whether there is a newer release.
//!
//! Deliberately the mildest kind of update check there is: it downloads
//! nothing, installs nothing, and runs nothing. It reads one small piece of
//! JSON, and if the version in it is higher than this one, the app offers to
//! open the release page in a browser. The request itself is made by the
//! application; what the answer means is decided here.

use vstd::prelude::*;

use crate::strings::{
    all_digits, chars_of, digits_up_to, digits_value, lemma_split_on_nonempty, slice_of, split_on,
    split_on_of, starts_with, string_of, trim, trimmed,
};

verus! {

/// Where the user is sent.
pub const RELEASES_PAGE: &'static str = "https://github.com/mediaswing/watchspend/releases/latest";

/// Where a release page offered by an answer has to be.
pub const RELEASES_PREFIX: &'static str = "https://github.com/mediaswing/watchspend/releases/";

/// This build's version.
pub const CURRENT: &'static str = "1.5.0";

/// A release newer than this build.
#[derive(Clone, Debug, PartialEq, Eq)]
pub struct Update {
    /// The version, without the leading `v`.
    pub version: String,
    /// Where to send someone who wants it.
    pub page: String,
}

/// What the answer says, as far as the check reads it: whether it is
/// marked a draft or a pre-release (when those fields are booleans), its
/// tag and its page (when those are strings).
#[derive(Clone, Debug, PartialEq, Eq)]
pub struct Release {
    pub draft: Option<bool>,
    pub prerelease: Option<bool>,
    pub tag_name: Option<String>,
    pub html_url: Option<String>,
}

/// A release as plain values.
pub type ReleaseView = (Option<bool>, Option<bool>, Option<Seq<char>>, Option<Seq<char>>);

pub open spec fn opt_view(o: Option<String>) -> Option<Seq<char>> {
    match o {
        Some(s) => Some(s@),
        None => None,
    }
}

pub open spec fn release_view(r: Release) -> ReleaseView {
    (r.draft, r.prerelease, opt_view(r.tag_name), opt_view(r.html_url))
}

/// The release fields `serde_json` reads from a response body, or nothing
/// when the body is not JSON.
pub uninterp spec fn json_release(body: Seq<char>) -> Option<ReleaseView>;

/// `serde_json::from_str::<serde_json::Value>`, with the four fields the
/// check reads taken out of the value: `draft` and `prerelease` as
/// booleans, `tag_name` and `html_url` as strings, each absent when the
/// value has no such field or it is of another kind. What that gives for a
/// body is named, not restated.
#[verifier::external_body]
fn read_release(body: &str) -> (r: Option<Release>)
    ensures
        match r {
            Some(rel) => json_release(body@) == Some(release_view(rel)),
            None => json_release(body@) == None::<ReleaseView>,
        },
{
    let value: serde_json::Value = serde_json::from_str(body).ok()?;
    Some(Release {
        draft: value.get("draft").and_then(serde_json::Value::as_bool),
        prerelease: value.get("prerelease").and_then(serde_json::Value::as_bool),
        tag_name: value.get("tag_name").and_then(serde_json::Value::as_str).map(str::to_owned),
        html_url: value.get("html_url").and_then(serde_json::Value::as_str).map(str::to_owned),
    })
}

// ------------------------------------------------------------------ versions

/// A piece of a version as `u32::from_str` reads it here: digits only, and
/// no more than a `u32` holds.
pub open spec fn number_of(s: Seq<char>) -> Option<nat> {
    if s.len() > 0 && all_digits(s) && digits_value(s) <= u32::MAX {
        Some(digits_value(s))
    } else {
        None
    }
}

/// `major.minor.patch`, any pre-release or build suffix ignored, a missing
/// minor or patch read as zero, and anything else refused.
pub open spec fn version_parts(version: Seq<char>) -> Option<(nat, nat, nat)> {
    let core = split_on(version, seq!['-', '+'])[0];
    let ns = split_on(core, seq!['.']);
    let major = number_of(ns[0]);
    let minor = if ns.len() >= 2 {
        number_of(ns[1])
    } else {
        Some(0nat)
    };
    let patch = if ns.len() >= 3 {
        number_of(ns[2])
    } else {
        Some(0nat)
    };
    if ns.len() > 3 || major is None || minor is None || patch is None {
        None
    } else {
        Some((major->0, minor->0, patch->0))
    }
}

/// Whether one triple comes after another, field by field.
pub open spec fn triple_after(a: (nat, nat, nat), b: (nat, nat, nat)) -> bool {
    a.0 > b.0 || (a.0 == b.0 && (a.1 > b.1 || (a.1 == b.1 && a.2 > b.2)))
}

/// Whether `candidate` is a later version than `current`; anything that
/// does not read as a version loses.
pub open spec fn newer(candidate: Seq<char>, current: Seq<char>) -> bool {
    match (version_parts(candidate), version_parts(current)) {
        (Some(a), Some(b)) => triple_after(a, b),
        _ => false,
    }
}

fn number(s: &Vec<char>) -> (r: Option<u32>)
    ensures
        match r {
            Some(n) => number_of(s@) == Some(n as nat),
            None => number_of(s@) == None::<nat>,
        },
{
    if s.len() == 0 || !crate::strings::all_digits_of(s) {
        return None;
    }
    match digits_up_to(s, 4294967295) {
        Some(n) => Some(n as u32),
        None => None,
    }
}

/// The numbers of a `major.minor.patch` version.
pub fn parts(version: &str) -> (r: Option<(u32, u32, u32)>)
    ensures
        match r {
            Some((a, b, c)) => version_parts(version@) == Some((a as nat, b as nat, c as nat)),
            None => version_parts(version@) == None::<(nat, nat, nat)>,
        },
{
    let v = chars_of(version);
    let mut suffixes: Vec<char> = Vec::new();
    suffixes.push('-');
    suffixes.push('+');
    assert(suffixes@ =~= seq!['-', '+']);
    let pieces = split_on_of(&v, &suffixes);
    proof {
        lemma_split_on_nonempty(v@, suffixes@);
    }
    let core = slice_of(&pieces[0], 0, pieces[0].len());
    assert(core@ =~= split_on(version@, seq!['-', '+'])[0]);
    let mut dots: Vec<char> = Vec::new();
    dots.push('.');
    assert(dots@ =~= seq!['.']);
    let ns = split_on_of(&core, &dots);
    proof {
        lemma_split_on_nonempty(core@, dots@);
    }
    let major = number(&ns[0]);
    let minor = if ns.len() >= 2 {
        number(&ns[1])
    } else {
        Some(0)
    };
    let patch = if ns.len() >= 3 {
        number(&ns[2])
    } else {
        Some(0)
    };
    if ns.len() > 3 {
        return None;
    }
    match (major, minor, patch) {
        (Some(a), Some(b), Some(c)) => Some((a, b, c)),
        _ => None,
    }
}

/// Compare two `major.minor.patch` versions. Anything that does not parse
/// loses, so a malformed tag cannot produce a prompt.
pub fn is_newer(candidate: &str, current: &str) -> (r: bool)
    ensures
        r == newer(candidate@, current@),
{
    match (parts(candidate), parts(current)) {
        (Some(a), Some(b)) => a.0 > b.0 || (a.0 == b.0 && (a.1 > b.1 || (a.1 == b.1 && a.2 > b.2))),
        _ => false,
    }
}

/// Newer is a strict order: no version is newer than itself, of two
/// versions at most one is newer than the other, and a version newer than
/// a newer one is newer still.
pub proof fn newer_is_a_strict_order(a: Seq<char>, b: Seq<char>, c: Seq<char>)
    ensures
        !newer(a, a),
        newer(a, b) ==> !newer(b, a),
        newer(a, b) && newer(b, c) ==> newer(a, c),
{
}

/// Versions compare by major number, then minor, then patch: a greater
/// major makes a release newer whatever follows; with the same major, a
/// greater minor makes it newer whatever the patches (1.1.0 is newer than
/// 1.0.5); with the same major and minor, only a greater patch does. A
/// version that cannot be read is never newer, nor older than one that is.
pub proof fn versions_compare_major_then_minor_then_patch(a: Seq<char>, b: Seq<char>)
    ensures
        match (version_parts(a), version_parts(b)) {
            (Some(x), Some(y)) => {
                &&& x.0 > y.0 ==> newer(a, b)
                &&& x.0 < y.0 ==> !newer(a, b)
                &&& x.0 == y.0 && x.1 > y.1 ==> newer(a, b)
                &&& x.0 == y.0 && x.1 < y.1 ==> !newer(a, b)
                &&& x.0 == y.0 && x.1 == y.1 ==> (newer(a, b) <==> x.2 > y.2)
            },
            _ => !newer(a, b),
        },
{
}

/// A version written plainly as `major.minor.patch` reads as those three
/// numbers, in that order.
pub proof fn a_plain_version_reads_as_its_numbers(major: nat, minor: nat, patch: nat)
    requires
        major <= u32::MAX,
        minor <= u32::MAX,
        patch <= u32::MAX,
    ensures
        version_parts(
            crate::strings::decimal(major) + seq!['.'] + crate::strings::decimal(minor) + seq!['.']
                + crate::strings::decimal(patch),
        ) == Some((major, minor, patch)),
{
    let dm = crate::strings::decimal(major);
    let dn = crate::strings::decimal(minor);
    let dp = crate::strings::decimal(patch);
    crate::strings::lemma_decimal_digits(major);
    crate::strings::lemma_decimal_digits(minor);
    crate::strings::lemma_decimal_digits(patch);
    let t = dm + seq!['.'] + dn + seq!['.'] + dp;
    let signs = seq!['-', '+'];
    let dots = seq!['.'];
    assert forall|i: int| 0 <= i < t.len() implies !signs.contains(#[trigger] t[i]) by {
        if signs.contains(t[i]) {
            let k = choose|k: int| 0 <= k < signs.len() && signs[k] == t[i];
            if i < dm.len() {
                assert(t[i] == dm[i]);
            } else if i == dm.len() {
            } else if i < dm.len() + 1 + dn.len() {
                assert(t[i] == dn[i - dm.len() - 1]);
            } else if i == dm.len() + 1 + dn.len() {
            } else {
                assert(t[i] == dp[i - dm.len() - 2 - dn.len()]);
            }
        }
    }
    crate::round_trip::lemma_split_plain(t, signs);
    assert(split_on(t, signs)[0] == t);
    assert(dots.contains('.')) by {
        assert(dots[0] == '.');
    }
    assert forall|d: Seq<char>| crate::strings::all_digits(d) implies forall|i: int|
        0 <= i < d.len() ==> !dots.contains(#[trigger] d[i]) by {
        assert forall|i: int| 0 <= i < d.len() implies !dots.contains(#[trigger] d[i]) by {
            if dots.contains(d[i]) {
                assert(dots[0] == d[i]);
            }
        }
    }
    crate::round_trip::lemma_split_plain(dm, dots);
    crate::round_trip::lemma_split_plain(dn, dots);
    crate::round_trip::lemma_split_plain(dp, dots);
    crate::round_trip::lemma_split_join(dn, '.', dp, dots);
    assert(t =~= dm + seq!['.'] + (dn + seq!['.'] + dp));
    crate::round_trip::lemma_split_join(dm, '.', dn + seq!['.'] + dp, dots);
    let ns = split_on(t, dots);
    assert(ns =~= seq![dm, dn, dp]);
}

// ------------------------------------------------------------------ answers

/// `s` with every leading `v` taken off.
pub open spec fn without_leading_vs(s: Seq<char>) -> Seq<char>
    decreases s.len(),
{
    if s.len() > 0 && s[0] == 'v' {
        without_leading_vs(s.drop_first())
    } else {
        s
    }
}

/// The update an answer offers, as (version, page): none for a draft or a
/// pre-release, none without a tag, none unless the tag's version is newer
/// than `current`; and the page only if it is on the project's releases,
/// the releases page otherwise.
pub open spec fn offered(release: ReleaseView, current: Seq<char>) -> Option<(Seq<char>, Seq<char>)> {
    let (draft, prerelease, tag, url) = release;
    if draft == Some(true) || prerelease == Some(true) {
        None
    } else {
        match tag {
            None => None,
            Some(t) => {
                let version = trim(without_leading_vs(t));
                if !newer(version, current) {
                    None
                } else {
                    let page = match url {
                        Some(u) => if starts_with(u, RELEASES_PREFIX@) {
                            u
                        } else {
                            RELEASES_PAGE@
                        },
                        None => RELEASES_PAGE@,
                    };
                    Some((version, page))
                }
            },
        }
    }
}

pub open spec fn update_view(u: Option<Update>) -> Option<(Seq<char>, Seq<char>)> {
    match u {
        Some(u) => Some((u.version@, u.page@)),
        None => None,
    }
}

/// The update a read answer offers, if any.
pub fn offered_update(release: Option<Release>, current: &str) -> (r: Option<Update>)
    ensures
        update_view(r) == match release {
            Some(rel) => offered(release_view(rel), current@),
            None => None::<(Seq<char>, Seq<char>)>,
        },
{
    let rel = match release {
        Some(rel) => rel,
        None => return None,
    };
    if rel.draft == Some(true) || rel.prerelease == Some(true) {
        return None;
    }
    let tag = match rel.tag_name {
        Some(t) => t,
        None => return None,
    };
    let t = chars_of(tag.as_str());
    let mut start: usize = 0;
    assert(t@.skip(0) =~= t@);
    while start < t.len() && t[start] == 'v'
        invariant
            start <= t.len(),
            without_leading_vs(t@) == without_leading_vs(t@.skip(start as int)),
        decreases t.len() - start,
    {
        assert(t@.skip(start as int).drop_first() =~= t@.skip(start + 1));
        start += 1;
    }
    let rest = slice_of(&t, start, t.len());
    assert(rest@ =~= t@.skip(start as int));
    let version = trimmed(&rest);
    let version_text = string_of(&version);
    if !is_newer(version_text.as_str(), current) {
        return None;
    }
    let page = match rel.html_url {
        Some(u) => {
            let uv = chars_of(u.as_str());
            let prefix = chars_of(RELEASES_PREFIX);
            if prefix.len() <= uv.len() && crate::strings::matches_at(&uv, 0, &prefix) {
                assert(uv@.skip(0) =~= uv@);
                u
            } else {
                assert(uv@.skip(0) =~= uv@);
                RELEASES_PAGE.to_owned()
            }
        },
        None => RELEASES_PAGE.to_owned(),
    };
    Some(Update { version: version_text, page })
}

/// Pull the version out of the answer's body, and only return it if it is
/// newer than `current`.
pub fn parse(body: &str, current: &str) -> (r: Option<Update>)
    ensures
        update_view(r) == match json_release(body@) {
            Some(rel) => offered(rel, current@),
            None => None::<(Seq<char>, Seq<char>)>,
        },
{
    offered_update(read_release(body), current)
}

/// Whether a found release is the version the user has already waved away.
pub open spec fn was_dismissed(found: Update, dismissed: Option<String>) -> bool {
    dismissed matches Some(d) && d@ == found.version@
}

/// What the check found, unless it is the version already dismissed: a
/// release is raised once and, once answered, never again.
pub fn worth_offering(found: Option<Update>, dismissed: &Option<String>) -> (r: Option<Update>)
    ensures
        r == match found {
            Some(u) => if was_dismissed(u, *dismissed) {
                None::<Update>
            } else {
                Some(u)
            },
            None => None::<Update>,
        },
{
    match found {
        Some(u) => {
            let seen = match dismissed {
                Some(d) => *d == u.version,
                None => false,
            };
            if seen {
                None
            } else {
                Some(u)
            }
        },
        None => None,
    }
}

// ------------------------------------------------------------------ the check

#[verifier::external_type_specification]
#[verifier::external_body]
#[verifier::reject_recursive_types(T)]
pub struct ExReceiver<T>(std::sync::mpsc::Receiver<T>);

/// What asking the channel gave.
pub enum Received {
    /// The answer.
    Answer(Option<Update>),
    /// Nothing yet.
    Empty,
    /// The other end is gone without answering.
    Disconnected,
}

/// `Receiver::try_recv`, its two errors told apart. What comes back depends
/// on the thread at the other end, so nothing is promised of it.
#[verifier::external_body]
fn try_receive(receiver: &std::sync::mpsc::Receiver<Option<Update>>) -> (r: Received) {
    match receiver.try_recv() {
        Ok(update) => Received::Answer(update),
        Err(std::sync::mpsc::TryRecvError::Empty) => Received::Empty,
        Err(std::sync::mpsc::TryRecvError::Disconnected) => Received::Disconnected,
    }
}

/// A check running on another thread, or none. Dropping it abandons the
/// answer.
pub struct Check {
    pub receiver: Option<std::sync::mpsc::Receiver<Option<Update>>>,
}

impl Check {
    /// A check whose answer will arrive on `receiver`.
    pub fn waiting_on(receiver: std::sync::mpsc::Receiver<Option<Update>>) -> (c: Check)
        ensures
            c.receiver is Some,
    {
        Check { receiver: Some(receiver) }
    }

    /// A check that was never started, for when the user has turned it off.
    pub fn disabled() -> (c: Check)
        ensures
            c.receiver is None,
    {
        Check { receiver: None }
    }

    /// Is the check still out?
    pub fn is_running(&self) -> (r: bool)
        ensures
            r == self.receiver is Some,
    {
        self.receiver.is_some()
    }

    /// What a running check becomes once the channel has said `outcome`:
    /// an answer is handed over and the check stops; a channel whose other
    /// end is gone stops it with nothing to say; an empty one leaves it
    /// waiting.
    pub fn settle(&mut self, outcome: Received) -> (r: Option<Update>)
        ensures
            settles(*old(self), outcome, *final(self), r),
    {
        match outcome {
            Received::Answer(update) => {
                self.receiver = None;
                update
            },
            Received::Empty => None,
            Received::Disconnected => {
                self.receiver = None;
                None
            },
        }
    }

    /// The answer, once, if it has arrived. A check that has answered, or
    /// whose other end has gone, stops running; one that has not answered
    /// yet keeps waiting. Which of those the channel says is up to the
    /// thread at its other end.
    pub fn poll(&mut self) -> (r: Option<Update>)
        ensures
            old(self).receiver is None ==> r is None && final(self).receiver is None,
            old(self).receiver is Some ==> exists|outcome: Received|
                settles(*old(self), outcome, *final(self), r),
            r is Some ==> final(self).receiver is None,
            final(self).receiver is Some ==> r is None && old(self).receiver is Some,
    {
        let outcome = match &self.receiver {
            None => return None,
            Some(receiver) => try_receive(receiver),
        };
        let ghost before = *self;
        let r = self.settle(outcome);
        assert(settles(before, outcome, *self, r));
        r
    }
}

/// How a check `before` becomes `after`, giving back `r`, once the channel
/// has said `outcome`.
pub open spec fn settles(before: Check, outcome: Received, after: Check, r: Option<Update>) -> bool {
    match outcome {
        Received::Answer(update) => r == update && after.receiver is None,
        Received::Empty => r is None && after == before,
        Received::Disconnected => r is None && after.receiver is None,
    }
}

} // verus!
