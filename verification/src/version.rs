use vstd::prelude::*;
use vstd::slice::{slice_subrange, slice_to_vec};

use crate::text::{
    all_ascii, all_digits, ascii_lower, chars_of, decimal, decimal_of, digits_value, is_digit, join_on, lemma_decimal,
    lemma_join_chars, lemma_join_push, lemma_join_split, lemma_join_starts_with, lemma_skip_leading_stops,
    lemma_split_chars, lemma_split_join, lemma_split_on_append, lemma_split_on_nonempty, lemma_split_on_without_sep, parse_digits, skip_leading,
    lowercase_text, split_on, string_of, terminated_by, to_lowercase,
};
use crate::update::UpdateError;

verus! {

/// Whether `c` opens the pre-release (`-`) or build-metadata (`+`) part of a tag.
pub open spec fn is_suffix_start(c: char) -> bool {
    c == '-' || c == '+'
}

/// The number of characters before the first `-` or `+` (all of them if there is none).
pub open spec fn core_len(s: Seq<char>) -> nat
    decreases s.len(),
{
    if s.len() == 0 {
        0
    } else if is_suffix_start(s[0]) {
        0
    } else {
        1 + core_len(s.drop_first())
    }
}

/// A dot-separated version component as the tag normalization rewrites it: a
/// non-empty all-digit component whose value fits in a `u64` is spelled without
/// leading zeros; any other component is kept as it is.
pub open spec fn normalize_component(seg: Seq<char>) -> Seq<char> {
    if seg.len() > 0 && all_digits(seg) && digits_value(seg) <= u64::MAX {
        decimal(digits_value(seg))
    } else {
        seg
    }
}

/// Every dot-separated component of `core`, normalized, joined again with dots.
pub open spec fn normalize_core(core: Seq<char>) -> Seq<char> {
    join_on(split_on(core, '.').map_values(|p: Seq<char>| normalize_component(p)), '.')
}

/// A lower-cased release tag rewritten for semantic-version parsing: leading
/// `v`s dropped, the components before the first `-` or `+` normalized, and the
/// rest (pre-release and build metadata) kept as it is.
pub open spec fn normalize_lowered_tag(lowered: Seq<char>) -> Seq<char> {
    let t = skip_leading(lowered, 'v');
    let k = core_len(t) as int;
    normalize_core(t.take(k)) + t.skip(k)
}

proof fn lemma_skip_leading_at(s: Seq<char>, c: char, k: int)
    requires
        0 <= k <= s.len(),
        forall|j: int| 0 <= j < k ==> s[j] == c,
        k == s.len() || s[k] != c,
    ensures
        skip_leading(s, c) == s.skip(k),
    decreases k,
{
    if k == 0 {
        assert(s.skip(0) =~= s);
    } else {
        let t = s.drop_first();
        assert forall|j: int| 0 <= j < k - 1 implies t[j] == c by {
            assert(t[j] == s[j + 1]);
        }
        lemma_skip_leading_at(t, c, k - 1);
        assert(t.skip(k - 1) =~= s.skip(k));
    }
}

proof fn lemma_core_len_at(s: Seq<char>, k: int)
    requires
        0 <= k <= s.len(),
        forall|j: int| 0 <= j < k ==> !is_suffix_start(#[trigger] s[j]),
        k == s.len() || is_suffix_start(s[k]),
    ensures
        core_len(s) == k,
    decreases k,
{
    if k > 0 {
        let t = s.drop_first();
        assert forall|j: int| 0 <= j < k - 1 implies !is_suffix_start(#[trigger] t[j]) by {
            assert(t[j] == s[j + 1]);
        }
        if k < s.len() {
            assert(t[k - 1] == s[k]);
        }
        lemma_core_len_at(t, k - 1);
    }
}

fn normalize_component_of(seg: &[char]) -> (res: Vec<char>)
    ensures
        res@ == normalize_component(seg@),
{
    match parse_digits(seg) {
        Some(v) => decimal_of(v),
        None => slice_to_vec(seg),
    }
}

fn normalize_core_of(core: &[char]) -> (res: Vec<char>)
    ensures
        res@ == normalize_core(core@),
{
    let ghost norm = |p: Seq<char>| normalize_component(p);
    let ghost mut done: Seq<Seq<char>> = Seq::empty();
    let mut cur: Vec<char> = Vec::new();
    let mut out: Vec<char> = Vec::new();
    assert(core@.take(0) =~= Seq::<char>::empty());
    assert(split_on(core@.take(0), '.') =~= done.push(cur@));
    for i in 0..core.len()
        invariant
            norm == (|p: Seq<char>| normalize_component(p)),
            split_on(core@.take(i as int), '.') == done.push(cur@),
            out@ == terminated_by(done.map_values(norm), '.'),
    {
        let c = core[i];
        let ghost prefix = core@.take(i + 1);
        assert(prefix.drop_last() =~= core@.take(i as int));
        assert(prefix.last() == c);
        if c == '.' {
            let mut piece = normalize_component_of(cur.as_slice());
            out.append(&mut piece);
            out.push('.');
            proof {
                let old_done = done;
                done = done.push(cur@);
                assert(done.map_values(norm).drop_last() =~= old_done.map_values(norm));
                assert(done.map_values(norm).last() == normalize_component(cur@));
            }
            cur = Vec::new();
            assert(split_on(prefix, '.') =~= done.push(cur@));
        } else {
            let ghost s = done.push(cur@);
            cur.push(c);
            assert(s.update(s.len() - 1, s.last().push(c)) =~= done.push(cur@));
        }
    }
    assert(core@.take(core@.len() as int) =~= core@);
    let mut last = normalize_component_of(cur.as_slice());
    proof {
        lemma_join_push(done.map_values(norm), normalize_component(cur@), '.');
        assert(done.push(cur@).map_values(norm) =~= done.map_values(norm).push(
            normalize_component(cur@),
        ));
    }
    out.append(&mut last);
    out
}

/// Rewrites a lower-cased release tag for semantic-version parsing.
///
/// Leading `v`s are dropped, the dot-separated components before the first
/// `-` or `+` are spelled without leading zeros where they are numbers that
/// fit in a `u64`, and the rest of the tag is kept as it is; so `v2026.07.04`
/// becomes `2026.7.4`.
pub fn normalize_version_tag(lowered: &str) -> (res: String)
    ensures
        res@ == normalize_lowered_tag(lowered@),
{
    let cs = chars_of(lowered);
    let n = cs.len();
    let mut start: usize = 0;
    while start < n && cs[start] == 'v'
        invariant
            n == cs@.len(),
            start <= n,
            forall|j: int| 0 <= j < start ==> cs@[j] == 'v',
        decreases n - start,
    {
        start = start + 1;
    }
    proof {
        lemma_skip_leading_at(cs@, 'v', start as int);
    }
    let t = slice_subrange(cs.as_slice(), start, n);
    let mut k: usize = start;
    while k < n && !(cs[k] == '-' || cs[k] == '+')
        invariant
            n == cs@.len(),
            start <= k <= n,
            t@ == cs@.subrange(start as int, n as int),
            forall|j: int| start <= j < k ==> !is_suffix_start(#[trigger] cs@[j]),
        decreases n - k,
    {
        k = k + 1;
    }
    proof {
        assert forall|j: int| 0 <= j < k - start implies !is_suffix_start(#[trigger] t@[j]) by {
            assert(t@[j] == cs@[j + start]);
        }
        if k < n {
            assert(t@[k - start] == cs@[k as int]);
        }
        lemma_core_len_at(t@, k - start);
    }
    let core = slice_subrange(cs.as_slice(), start, k);
    let rest = slice_subrange(cs.as_slice(), k, n);
    assert(core@ =~= t@.take(k - start));
    assert(rest@ =~= t@.skip(k - start));
    let mut out = normalize_core_of(core);
    let mut tail = slice_to_vec(rest);
    out.append(&mut tail);
    string_of(out.as_slice())
}

/// A semantic version as `semver` parses it: the three numbers, and the
/// pre-release and build-metadata texts (empty when absent).
#[derive(Debug, Clone, PartialEq, Eq)]
pub struct SemVersion {
    pub major: u64,
    pub minor: u64,
    pub patch: u64,
    pub pre: String,
    pub build: String,
}

/// What `semver::Version::parse` returns for `text`: the major, minor and patch
/// numbers and the pre-release and build texts, or, for an error, the error's
/// message (its `Display` text).
pub uninterp spec fn semver_parse(text: Seq<char>) -> Result<(u64, u64, u64, Seq<char>, Seq<char>), Seq<char>>;

/// A decimal number as SemVer writes one: non-empty, digits only, no leading
/// zero unless it is `0` itself, and small enough for a `u64`.
pub open spec fn canonical_number(p: Seq<char>) -> bool {
    &&& p.len() > 0
    &&& all_digits(p)
    &&& (p.len() == 1 || p[0] != '0')
    &&& digits_value(p) <= u64::MAX
}

/// The three numbers of a text made of exactly three dot-separated canonical
/// numbers, and `None` for any other text.
pub open spec fn plain_version_numbers(text: Seq<char>) -> Option<(u64, u64, u64)> {
    let ps = split_on(text, '.');
    if ps.len() == 3 && canonical_number(ps[0]) && canonical_number(ps[1]) && canonical_number(
        ps[2],
    ) {
        Some((digits_value(ps[0]) as u64, digits_value(ps[1]) as u64, digits_value(ps[2]) as u64))
    } else {
        None
    }
}

/// The parts that a text of three plain numbers parses to: the numbers, and
/// empty pre-release and build texts.
pub open spec fn plain_version_parts(text: Seq<char>) -> (u64, u64, u64, Seq<char>, Seq<char>) {
    let n = plain_version_numbers(text)->0;
    (n.0, n.1, n.2, Seq::<char>::empty(), Seq::<char>::empty())
}

/// `semver::Version::parse`, with an error taken as its message. The result is
/// named by `semver_parse`; the one fact stated of it is what the SemVer
/// grammar and the crate's docs plainly give: exactly three dot-separated
/// decimal numbers without leading zeros that fit in a `u64` parse to those
/// numbers with empty pre-release and build texts.
#[verifier::external_body]
fn semver_version_parse(text: &str) -> (res: Result<SemVersion, String>)
    ensures
        res is Ok <==> semver_parse(text@) is Ok,
        res matches Ok(v) ==> semver_parse(text@)->Ok_0 == (v.major, v.minor, v.patch, v.pre@, v.build@),
        res matches Err(m) ==> semver_parse(text@)->Err_0 == m@,
        plain_version_numbers(text@) is Some ==> res is Ok,
        res matches Ok(v) ==> (plain_version_numbers(text@) is Some ==> (v.major, v.minor, v.patch, v.pre@, v.build@) == plain_version_parts(text@)),
{
    match semver::Version::parse(text) {
        Ok(v) => Ok(
            SemVersion {
                major: v.major,
                minor: v.minor,
                patch: v.patch,
                pre: v.pre.as_str().to_string(),
                build: v.build.as_str().to_string(),
            },
        ),
        Err(e) => Err(e.to_string()),
    }
}

/// Parses a (normalized) tag as a semantic version; a text that `semver`
/// rejects gives `InvalidVersion` holding the text and `semver`'s message.
pub fn parse_version(text: &str) -> (res: Result<SemVersion, UpdateError>)
    ensures
        match semver_parse(text@) {
            Ok(p) => res matches Ok(v) && (v.major, v.minor, v.patch, v.pre@, v.build@) == p,
            Err(m) => res matches Err(UpdateError::InvalidVersion { text: t, reason: r }) && t@
                == text@ && r@ == m,
        },
        plain_version_numbers(text@) matches Some(n) ==> (res matches Ok(v) && v.major == n.0
            && v.minor == n.1 && v.patch == n.2 && v.pre@.len() == 0 && v.build@.len() == 0),
{
    match semver_version_parse(text) {
        Ok(v) => Ok(v),
        Err(message) => Err(UpdateError::InvalidVersion { text: text.to_string(), reason: message }),
    }
}

/// The text that a release tag is parsed from: the tag lower-cased as
/// `str::to_lowercase` does, then normalized.
pub open spec fn version_text_of_tag(tag: Seq<char>) -> Seq<char> {
    normalize_lowered_tag(lowercase_text(tag))
}

/// Parses a release tag as a semantic version: lower-cased, normalized by
/// [`normalize_version_tag`], then handed to `semver`.
pub fn version_from_tag(tag: &str) -> (res: Result<SemVersion, UpdateError>)
    ensures
        match semver_parse(version_text_of_tag(tag@)) {
            Ok(p) => res matches Ok(v) && (v.major, v.minor, v.patch, v.pre@, v.build@) == p,
            Err(m) => res matches Err(UpdateError::InvalidVersion { text: t, reason: r }) && t@
                == version_text_of_tag(tag@) && r@ == m,
        },
        plain_version_numbers(version_text_of_tag(tag@)) matches Some(n) ==> (res matches Ok(v)
            && v.major == n.0 && v.minor == n.1 && v.patch == n.2 && v.pre@.len() == 0
            && v.build@.len() == 0),
{
    let lowered = to_lowercase(tag);
    assert(lowered@ == lowercase_text(tag@));
    let normalized = normalize_version_tag(lowered.as_str());
    parse_version(normalized.as_str())
}

/// A non-empty all-digit component whose value fits in a `u64` (leading zeros allowed).
pub open spec fn numeric_component(p: Seq<char>) -> bool {
    p.len() > 0 && all_digits(p) && digits_value(p) <= u64::MAX
}

proof fn lemma_digits_have_no_dot(p: Seq<char>)
    requires
        all_digits(p),
    ensures
        forall|i: int| 0 <= i < p.len() ==> p[i] != '.',
{
    assert forall|i: int| 0 <= i < p.len() implies p[i] != '.' by {
        assert(is_digit(p[i]));
    }
}

proof fn lemma_split_three(a: Seq<char>, b: Seq<char>, c: Seq<char>)
    requires
        all_digits(a),
        all_digits(b),
        all_digits(c),
    ensures
        split_on(a.push('.') + b.push('.') + c, '.') == seq![a, b, c],
{
    lemma_digits_have_no_dot(a);
    lemma_digits_have_no_dot(b);
    lemma_digits_have_no_dot(c);
    assert(a.push('.') + b.push('.') + c =~= (a.push('.') + b).push('.') + c);
    lemma_split_on_without_sep(a, '.');
    lemma_split_on_append(a, b, '.');
    lemma_split_on_append(a.push('.') + b, c, '.');
    assert(seq![a].push(b).push(c) =~= seq![a, b, c]);
}

/// The text of three dot-separated numeric components is free of `-` and `+`,
/// and normalizes to the three numbers written plainly.
proof fn lemma_numeric_core(major: Seq<char>, minor: Seq<char>, patch: Seq<char>)
    requires
        numeric_component(major),
        numeric_component(minor),
        numeric_component(patch),
    ensures
        forall|j: int|
            0 <= j < (major.push('.') + minor.push('.') + patch).len() ==> #[trigger] (major.push(
                '.',
            ) + minor.push('.') + patch)[j] != '-' && (major.push('.') + minor.push('.')
                + patch)[j] != '+',
        normalize_core(major.push('.') + minor.push('.') + patch) == decimal(
            digits_value(major),
        ).push('.') + decimal(digits_value(minor)).push('.') + decimal(digits_value(patch)),
{
    let t = major.push('.') + minor.push('.') + patch;
    assert forall|j: int| 0 <= j < t.len() implies #[trigger] t[j] != '-' && t[j] != '+' by {
        if j < major.len() {
            assert(t[j] == major[j]);
            assert(is_digit(major[j]));
        } else if j == major.len() || j == major.len() + minor.len() + 1 {
            assert(t[j] == '.');
        } else if j < major.len() + minor.len() + 1 {
            assert(t[j] == minor[j - major.len() - 1]);
            assert(is_digit(minor[j - major.len() - 1]));
        } else {
            assert(t[j] == patch[j - major.len() - minor.len() - 2]);
            assert(is_digit(patch[j - major.len() - minor.len() - 2]));
        }
    }
    lemma_split_three(major, minor, patch);
    let d0 = decimal(digits_value(major));
    let d1 = decimal(digits_value(minor));
    let d2 = decimal(digits_value(patch));
    let norm = |p: Seq<char>| normalize_component(p);
    assert(seq![major, minor, patch].map_values(norm) =~= seq![d0, d1, d2]);
    lemma_join_push(seq![d0], d1, '.');
    lemma_join_push(seq![d0, d1], d2, '.');
    assert(seq![d0].push(d1) =~= seq![d0, d1]);
    assert(seq![d0, d1].push(d2) =~= seq![d0, d1, d2]);
    assert(seq![d0].drop_last() =~= Seq::<Seq<char>>::empty());
    assert(seq![d0, d1].drop_last() =~= seq![d0]);
    assert(split_on(t, '.').map_values(norm) =~= seq![d0, d1, d2]);
    assert(normalize_core(t) == join_on(seq![d0, d1, d2], '.'));
    assert(terminated_by(seq![d0], '.') == (terminated_by(Seq::<Seq<char>>::empty(), '.') + d0).push(
        '.',
    ));
    assert(Seq::<char>::empty() + d0 =~= d0);
    assert(terminated_by(seq![d0], '.') =~= d0.push('.'));
    assert(terminated_by(seq![d0, d1], '.') == (terminated_by(seq![d0], '.') + d1).push('.'));
    assert(terminated_by(seq![d0, d1], '.') =~= (d0.push('.') + d1).push('.'));
    assert(join_on(seq![d0, d1, d2], '.') =~= d0.push('.') + d1.push('.') + d2);
}

/// A lower-cased tag made of leading `v`s, three dot-separated decimal numbers
/// that fit in a `u64` (leading zeros allowed), and then nothing, or a
/// pre-release or build part opened by `-` or `+`, normalizes to those three
/// numbers written plainly followed by that same part unchanged: so
/// `v2026.07.04+linux` becomes `2026.7.4+linux` and `v1.02.3-rc.01` becomes
/// `1.2.3-rc.01`.
pub proof fn lemma_numeric_tag_keeps_suffix(
    lowered: Seq<char>,
    major: Seq<char>,
    minor: Seq<char>,
    patch: Seq<char>,
    suffix: Seq<char>,
)
    requires
        skip_leading(lowered, 'v') == major.push('.') + minor.push('.') + patch + suffix,
        numeric_component(major),
        numeric_component(minor),
        numeric_component(patch),
        suffix.len() == 0 || suffix[0] == '-' || suffix[0] == '+',
    ensures
        normalize_lowered_tag(lowered) == decimal(digits_value(major)).push('.') + decimal(
            digits_value(minor),
        ).push('.') + decimal(digits_value(patch)) + suffix,
{
    let c = major.push('.') + minor.push('.') + patch;
    let t = c + suffix;
    lemma_numeric_core(major, minor, patch);
    assert forall|j: int| 0 <= j < c.len() implies !is_suffix_start(#[trigger] t[j]) by {
        assert(t[j] == c[j]);
        assert(c[j] != '-' && c[j] != '+');
    }
    if suffix.len() > 0 {
        assert(t[c.len() as int] == suffix[0]);
    }
    lemma_core_len_at(t, c.len() as int);
    assert(t.take(c.len() as int) =~= c);
    assert(t.skip(c.len() as int) =~= suffix);
}

/// A lower-cased tag made of leading `v`s and three dot-separated decimal
/// numbers that fit in a `u64`, leading zeros allowed (such as `v2026.07.04`),
/// normalizes to exactly those three numbers written plainly, which is the
/// form that `semver` reads as that version.
pub proof fn lemma_numeric_tag_normalizes(
    lowered: Seq<char>,
    major: Seq<char>,
    minor: Seq<char>,
    patch: Seq<char>,
)
    requires
        skip_leading(lowered, 'v') == major.push('.') + minor.push('.') + patch,
        numeric_component(major),
        numeric_component(minor),
        numeric_component(patch),
    ensures
        plain_version_numbers(normalize_lowered_tag(lowered)) == Some(
            (
                digits_value(major) as u64,
                digits_value(minor) as u64,
                digits_value(patch) as u64,
            ),
        ),
{
    let c = major.push('.') + minor.push('.') + patch;
    assert(c + Seq::<char>::empty() =~= c);
    lemma_numeric_tag_keeps_suffix(lowered, major, minor, patch, Seq::<char>::empty());
    let d0 = decimal(digits_value(major));
    let d1 = decimal(digits_value(minor));
    let d2 = decimal(digits_value(patch));
    assert(d0.push('.') + d1.push('.') + d2 + Seq::<char>::empty() =~= d0.push('.') + d1.push('.')
        + d2);
    lemma_decimal(digits_value(major));
    lemma_decimal(digits_value(minor));
    lemma_decimal(digits_value(patch));
    lemma_split_three(d0, d1, d2);
}

/// A leading `v` is ignored: prefixing a lower-cased tag with `v` does not
/// change what it normalizes to.
pub proof fn lemma_leading_v_ignored(lowered: Seq<char>)
    ensures
        normalize_lowered_tag(seq!['v'] + lowered) == normalize_lowered_tag(lowered),
{
    let s = seq!['v'] + lowered;
    assert(s.drop_first() =~= lowered);
    assert(skip_leading(s, 'v') == skip_leading(lowered, 'v'));
}

proof fn lemma_skip_leading_split(s: Seq<char>, c: char) -> (k: int)
    ensures
        0 <= k <= s.len(),
        skip_leading(s, c) == s.skip(k),
        forall|j: int| 0 <= j < k ==> s[j] == c,
    decreases s.len(),
{
    if s.len() > 0 && s[0] == c {
        let k0 = lemma_skip_leading_split(s.drop_first(), c);
        assert(s.drop_first().skip(k0) =~= s.skip(k0 + 1));
        assert forall|j: int| 0 <= j < k0 + 1 implies s[j] == c by {
            if j > 0 {
                assert(s[j] == s.drop_first()[j - 1]);
            }
        }
        k0 + 1
    } else {
        assert(s.skip(0) =~= s);
        0
    }
}

/// A release tag made of leading `v`s and three dot-separated decimal numbers
/// that fit in a `u64`, leading zeros allowed (such as `2026.07.04` or
/// `v1.02.3`), is parsed from exactly those three numbers written plainly; with
/// the contract of `version_from_tag`, its version is those three numbers.
pub proof fn lemma_numeric_tag_version_text(
    tag: Seq<char>,
    major: Seq<char>,
    minor: Seq<char>,
    patch: Seq<char>,
)
    requires
        skip_leading(tag, 'v') == major.push('.') + minor.push('.') + patch,
        numeric_component(major),
        numeric_component(minor),
        numeric_component(patch),
    ensures
        plain_version_numbers(version_text_of_tag(tag)) == Some(
            (
                digits_value(major) as u64,
                digits_value(minor) as u64,
                digits_value(patch) as u64,
            ),
        ),
{
    let k = lemma_skip_leading_split(tag, 'v');
    let t = major.push('.') + minor.push('.') + patch;
    assert forall|j: int| 0 <= j < tag.len() implies (#[trigger] tag[j] == 'v' || tag[j] == '.'
        || is_digit(tag[j])) by {
        if j >= k {
            let i = j - k;
            assert(tag.skip(k) == t);
            assert(t.len() == tag.len() - k);
            assert(tag[j] == t[i]);
            if i < major.len() {
                assert(t[i] == major[i]);
                assert(is_digit(major[i]));
            } else if i == major.len() || i == major.len() + minor.len() + 1 {
                assert(t[i] == '.');
            } else if i < major.len() + minor.len() + 1 {
                assert(t[i] == minor[i - major.len() - 1]);
                assert(is_digit(minor[i - major.len() - 1]));
            } else {
                assert(t[i] == patch[i - major.len() - minor.len() - 2]);
                assert(is_digit(patch[i - major.len() - minor.len() - 2]));
            }
        }
    }
    assert(all_ascii(tag));
    assert(tag.map_values(|c: char| ascii_lower(c)) =~= tag);
    lemma_numeric_tag_normalizes(tag, major, minor, patch);
}

proof fn lemma_core_len_props(s: Seq<char>)
    ensures
        core_len(s) <= s.len(),
        forall|j: int| 0 <= j < core_len(s) ==> !is_suffix_start(#[trigger] s[j]),
        core_len(s) < s.len() ==> is_suffix_start(s[core_len(s) as int]),
    decreases s.len(),
{
    if s.len() > 0 && !is_suffix_start(s[0]) {
        let t = s.drop_first();
        lemma_core_len_props(t);
        assert forall|j: int| 0 <= j < core_len(s) implies !is_suffix_start(#[trigger] s[j]) by {
            if j > 0 {
                assert(s[j] == t[j - 1]);
            }
        }
        if core_len(s) < s.len() {
            assert(s[core_len(s) as int] == t[core_len(t) as int]);
        }
    }
}

/// Normalizing a component twice is the same as normalizing it once.
pub proof fn lemma_normalize_component_idempotent(p: Seq<char>)
    ensures
        normalize_component(normalize_component(p)) == normalize_component(p),
{
    if p.len() > 0 && all_digits(p) && digits_value(p) <= u64::MAX {
        lemma_decimal(digits_value(p));
    }
}

proof fn lemma_normalize_component_chars(p: Seq<char>)
    requires
        forall|j: int| 0 <= j < p.len() ==> !is_suffix_start(#[trigger] p[j]) && p[j] != '.',
    ensures
        forall|j: int|
            0 <= j < normalize_component(p).len() ==> !is_suffix_start(
                #[trigger] normalize_component(p)[j],
            ) && normalize_component(p)[j] != '.',
        normalize_component(p).len() == 0 <==> p.len() == 0,
        p.len() > 0 && p[0] != 'v' ==> normalize_component(p)[0] != 'v',
{
    if p.len() > 0 && all_digits(p) && digits_value(p) <= u64::MAX {
        let d = decimal(digits_value(p));
        lemma_decimal(digits_value(p));
        assert forall|j: int| 0 <= j < d.len() implies !is_suffix_start(#[trigger] d[j]) && d[j]
            != '.' by {
            assert(is_digit(d[j]));
        }
        assert(is_digit(d[0]));
    }
}

/// The normalized components of a core (text without `-` or `+`) contain
/// neither `-`, `+` nor `.`.
proof fn lemma_normalized_pieces_chars(core: Seq<char>)
    requires
        forall|j: int| 0 <= j < core.len() ==> !is_suffix_start(#[trigger] core[j]),
    ensures
        forall|i: int, j: int|
            0 <= i < split_on(core, '.').len() && 0 <= j < normalize_component(
                split_on(core, '.')[i],
            ).len() ==> #[trigger] normalize_component(split_on(core, '.')[i])[j] != '.'
                && !is_suffix_start(normalize_component(split_on(core, '.')[i])[j]),
{
    let ps = split_on(core, '.');
    let q = |c: char| !is_suffix_start(c);
    assert forall|m: int| 0 <= m < core.len() && core[m] != '.' implies q(#[trigger] core[m]) by {}
    lemma_split_chars(core, '.', q);
    assert forall|i: int, j: int|
        0 <= i < ps.len() && 0 <= j < normalize_component(ps[i]).len() implies #[trigger] normalize_component(ps[i])[j] != '.'
            && !is_suffix_start(normalize_component(ps[i])[j]) by {
        let p = ps[i];
        assert forall|j2: int| 0 <= j2 < p.len() implies !is_suffix_start(#[trigger] p[j2])
            && p[j2] != '.' by {
            assert(q(ps[i][j2]) && ps[i][j2] != '.');
        }
        lemma_normalize_component_chars(p);
    }
}

/// A non-empty core that does not start with `v` normalizes to a non-empty
/// text that does not start with `v`.
proof fn lemma_normalized_core_first(core: Seq<char>)
    requires
        core.len() > 0,
        core[0] != 'v',
        forall|j: int| 0 <= j < core.len() ==> !is_suffix_start(#[trigger] core[j]),
    ensures
        normalize_core(core).len() > 0,
        normalize_core(core)[0] != 'v',
{
    let norm = |p: Seq<char>| normalize_component(p);
    let ps = split_on(core, '.');
    let nps = ps.map_values(norm);
    lemma_split_on_nonempty(core, '.');
    lemma_join_split(core, '.');
    lemma_join_starts_with(ps, '.');
    lemma_join_starts_with(nps, '.');
    let p = ps[0];
    let q = |c: char| !is_suffix_start(c);
    lemma_split_chars(core, '.', q);
    assert forall|j2: int| 0 <= j2 < p.len() implies !is_suffix_start(#[trigger] p[j2]) && p[j2]
        != '.' by {
        assert(q(ps[0][j2]) && ps[0][j2] != '.');
    }
    lemma_normalize_component_chars(p);
    assert(nps[0] == normalize_component(p));
    if p.len() > 0 {
        assert(core.take(p.len() as int)[0] == p[0]);
        assert(normalize_core(core).take(nps[0].len() as int)[0] == nps[0][0]);
    } else {
        assert(ps.len() >= 2) by {
            if ps.len() == 1 {
                assert(join_on(ps, '.') == p);
            }
        }
        assert(nps.len() >= 2);
        assert(normalize_core(core)[0] == '.');
    }
}

/// Normalizing a normalized tag changes nothing: the normalized text has no
/// leading `v`, its numeric components are already plain, and its pre-release
/// and build parts are the ones it had.
pub proof fn lemma_normalize_idempotent(lowered: Seq<char>)
    ensures
        normalize_lowered_tag(normalize_lowered_tag(lowered)) == normalize_lowered_tag(lowered),
{
    let norm = |p: Seq<char>| normalize_component(p);
    let t = skip_leading(lowered, 'v');
    lemma_skip_leading_stops(lowered, 'v');
    lemma_core_len_props(t);
    let k = core_len(t) as int;
    let core = t.take(k);
    let suf = t.skip(k);
    let ps = split_on(core, '.');
    let nps = ps.map_values(norm);
    let nc = join_on(nps, '.');
    let n = nc + suf;
    assert(n == normalize_lowered_tag(lowered));
    lemma_split_on_nonempty(core, '.');
    assert forall|j: int| 0 <= j < core.len() implies !is_suffix_start(#[trigger] core[j]) by {
        assert(core[j] == t[j]);
    }
    lemma_normalized_pieces_chars(core);
    assert forall|i: int, j: int|
        0 <= i < nps.len() && 0 <= j < nps[i].len() implies #[trigger] nps[i][j] != '.' && !is_suffix_start(
        nps[i][j],
    ) by {
        assert(nps[i] == normalize_component(ps[i]));
    }
    let q = |c: char| !is_suffix_start(c);
    lemma_join_chars(nps, '.', q);
    lemma_split_join(nps, '.');
    assert forall|i: int| 0 <= i < nps.len() implies #[trigger] norm(nps[i]) == nps[i] by {
        lemma_normalize_component_idempotent(ps[i]);
    }
    assert(nps.map_values(norm) =~= nps);
    assert(normalize_core(nc) == nc);
    // `n` does not start with `v`.
    if core.len() == 0 {
        assert(core =~= Seq::<char>::empty());
        assert(ps =~= seq![Seq::<char>::empty()]);
        assert(nps =~= seq![Seq::<char>::empty()]);
        assert(nc =~= Seq::<char>::empty());
        assert(n =~= t);
    } else {
        assert(core[0] == t[0]);
        lemma_normalized_core_first(core);
        assert(n[0] == nc[0]);
    }
    assert(skip_leading(n, 'v') == n);
    // The core of `n` is `nc`.
    assert forall|j: int| 0 <= j < nc.len() implies !is_suffix_start(#[trigger] n[j]) by {
        assert(n[j] == nc[j]);
        assert(nc[j] == '.' || q(nc[j]));
    }
    if nc.len() < n.len() {
        assert(n[nc.len() as int] == suf[0]);
        assert(suf[0] == t[k]);
    }
    lemma_core_len_at(n, nc.len() as int);
    assert(n.take(nc.len() as int) =~= nc);
    assert(n.skip(nc.len() as int) =~= suf);
}

} // verus!
