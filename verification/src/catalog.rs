//! Module descriptors: the name, version and identity of a module, and the
//! name of the directory that holds it on disk.

use crate::strings::{
    chars_are_numeral, chars_to_u64, digit_value, is_numeral, law_numeral_fixed_roundtrip,
    numeral, numeral_fixed, numeral_value, str_chars, str_to_string, u64_to_numeral,
    u64_to_numeral_fixed,
};
use vstd::prelude::*;
use vstd::std_specs::cmp::PartialEqSpecImpl;

verus! {

/// Mathematical value of a version.
pub struct VersionView {
    pub major: nat,
    pub minor: nat,
    pub patch: nat,
    pub pre: Seq<char>,
    pub build: Seq<char>,
}

/// A semantic version: three numbers, a pre-release tag and build metadata,
/// the last two empty where the version has none.
#[derive(Debug)]
pub struct Version {
    pub major: u64,
    pub minor: u64,
    pub patch: u64,
    pub pre: String,
    pub build: String,
}

impl View for Version {
    type V = VersionView;

    open spec fn view(&self) -> VersionView {
        VersionView {
            major: self.major as nat,
            minor: self.minor as nat,
            patch: self.patch as nat,
            pre: self.pre@,
            build: self.build@,
        }
    }
}

impl Clone for Version {
    fn clone(&self) -> (r: Self)
        ensures
            r@ == self@,
    {
        Version {
            major: self.major,
            minor: self.minor,
            patch: self.patch,
            pre: self.pre.clone(),
            build: self.build.clone(),
        }
    }
}

impl PartialEq for Version {
    fn eq(&self, other: &Self) -> (r: bool) {
        self.major == other.major && self.minor == other.minor && self.patch == other.patch
            && self.pre == other.pre && self.build == other.build
    }
}

impl PartialEqSpecImpl for Version {
    open spec fn obeys_eq_spec() -> bool {
        true
    }

    open spec fn eq_spec(&self, other: &Self) -> bool {
        self@ == other@
    }
}

impl Eq for Version {

}

/// What `semver::Version::parse` makes of a text: the version, or the
/// message of its error.
pub uninterp spec fn semver_parse(text: Seq<char>) -> Result<VersionView, Seq<char>>;

/// The view of a version that was parsed, or of the message of the error.
pub open spec fn version_result_view(r: Result<Version, String>) -> Result<
    VersionView,
    Seq<char>,
> {
    match r {
        Ok(v) => Ok(v@),
        Err(e) => Err(e@),
    }
}

/// Calls `semver::Version::parse`. Its answer is taken as it comes: the
/// fields of the version it gives, or the text of the error it gives. No
/// more is claimed than that the same text always gets the same answer.
#[verifier::external_body]
fn semver_version_parse(text: &str) -> (r: Result<Version, String>)
    ensures
        version_result_view(r) == semver_parse(text@),
{
    match semver::Version::parse(text) {
        Ok(v) => Ok(
            Version {
                major: v.major,
                minor: v.minor,
                patch: v.patch,
                pre: v.pre.as_str().to_string(),
                build: v.build.as_str().to_string(),
            },
        ),
        Err(e) => Err(e.to_string()),
    }
}

/// The text of a version: the three numbers separated by dots, then `-`
/// and the pre-release tag, then `+` and the build metadata, each where
/// there is one.
pub open spec fn version_display(v: VersionView) -> Seq<char> {
    let core = numeral(v.major, 10) + "."@ + numeral(v.minor, 10) + "."@ + numeral(v.patch, 10);
    let with_pre = if v.pre.len() > 0 {
        core + "-"@ + v.pre
    } else {
        core
    };
    if v.build.len() > 0 {
        with_pre + "+"@ + v.build
    } else {
        with_pre
    }
}

impl Version {
    /// The version that a text denotes, by the rules of semantic versions.
    pub fn parse(text: &str) -> (r: Result<Version, String>)
        ensures
            version_result_view(r) == semver_parse(text@),
    {
        semver_version_parse(text)
    }

    /// The text of the version.
    pub fn to_string(&self) -> (r: String)
        ensures
            r@ == version_display(self@),
    {
        let mut out = u64_to_numeral(self.major, 10);
        out.append(".");
        let minor = u64_to_numeral(self.minor, 10);
        out.append(minor.as_str());
        out.append(".");
        let patch = u64_to_numeral(self.patch, 10);
        out.append(patch.as_str());
        if self.pre.as_str().unicode_len() > 0 {
            out.append("-");
            out.append(self.pre.as_str());
        }
        if self.build.as_str().unicode_len() > 0 {
            out.append("+");
            out.append(self.build.as_str());
        }
        out
    }
}

/// Mathematical value of a module descriptor.
pub struct DescriptorView {
    pub name: Seq<char>,
    pub version: Option<VersionView>,
    pub uid: Option<u64>,
}

/// What identifies a module: its name, its version where it has one, and a
/// number that tells apart modules of the same name and version.
#[derive(Debug)]
pub struct ModuleDescriptor {
    name: String,
    version: Option<Version>,
    uid: Option<u64>,
}

/// The view of a version that may be absent.
pub open spec fn version_opt_view(v: Option<Version>) -> Option<VersionView> {
    match v {
        Some(v) => Some(v@),
        None => None,
    }
}

impl View for ModuleDescriptor {
    type V = DescriptorView;

    closed spec fn view(&self) -> DescriptorView {
        DescriptorView {
            name: self.name@,
            version: version_opt_view(self.version),
            uid: self.uid,
        }
    }
}

impl Clone for ModuleDescriptor {
    fn clone(&self) -> (r: Self)
        ensures
            r@ == self@,
    {
        let version = match &self.version {
            Some(v) => Some(v.clone()),
            None => None,
        };
        ModuleDescriptor { name: self.name.clone(), version, uid: self.uid }
    }
}

impl PartialEq for ModuleDescriptor {
    fn eq(&self, other: &Self) -> (r: bool) {
        let same_version = match (&self.version, &other.version) {
            (Some(a), Some(b)) => *a == *b,
            (None, None) => true,
            _ => false,
        };
        let same_uid = match (self.uid, other.uid) {
            (Some(a), Some(b)) => a == b,
            (None, None) => true,
            _ => false,
        };
        self.name == other.name && same_version && same_uid
    }
}

impl PartialEqSpecImpl for ModuleDescriptor {
    open spec fn obeys_eq_spec() -> bool {
        true
    }

    open spec fn eq_spec(&self, other: &Self) -> bool {
        self@ == other@
    }
}

impl Eq for ModuleDescriptor {

}

/// The offset from which the hash of an identity starts.
pub const HASH_OFFSET: u64 = 0xcbf29ce484222325;

/// The factor by which the hash of an identity grows with each byte.
pub const HASH_PRIME: u64 = 0x100000001b3;

/// The hash `h` taken on over the bytes from position `i` on: for each
/// byte, exclusive-or with the byte, then multiplication by the prime,
/// modulo 2 to the 64.
pub open spec fn hash_from(bytes: Seq<u8>, i: int, h: u64) -> u64
    decreases bytes.len() - i,
{
    if i < 0 || i >= bytes.len() {
        h
    } else {
        hash_from(bytes, i + 1, (h ^ (bytes[i] as u64)).wrapping_mul(HASH_PRIME))
    }
}

/// The identity number of the module whose identity is the given bytes, in
/// the format of the given number.
pub open spec fn uid_of(ident: Seq<u8>, fmt_id: u64) -> u64 {
    hash_from(ident, 0, HASH_OFFSET) ^ fmt_id
}

impl ModuleDescriptor {
    /// The descriptor of the given name, version and identity number.
    pub fn new(name: String, version: Option<Version>, uid: Option<u64>) -> (r: Self)
        ensures
            r@ == (DescriptorView { name: name@, version: version_opt_view(version), uid }),
    {
        ModuleDescriptor { name, version, uid }
    }

    pub fn name(&self) -> (r: &str)
        ensures
            r@ == self@.name,
    {
        self.name.as_str()
    }

    pub fn version(&self) -> (r: Option<&Version>)
        ensures
            match r {
                Some(v) => self@.version == Some(v@),
                None => self@.version is None,
            },
    {
        self.version.as_ref()
    }

    pub fn uid(&self) -> (r: Option<u64>)
        ensures
            r == self@.uid,
    {
        self.uid
    }

    /// The identity number for an identity given as bytes and the number of
    /// the format in which the module is kept.
    pub fn uid_from_ident_bytes_and_fmt_id(ident_bytes: &[u8], fmt_id: u64) -> (r: u64)
        ensures
            r == uid_of(ident_bytes@, fmt_id),
    {
        let mut h: u64 = HASH_OFFSET;
        let mut i: usize = 0;
        while i < ident_bytes.len()
            invariant
                0 <= i <= ident_bytes.len(),
                hash_from(ident_bytes@, i as int, h) == hash_from(ident_bytes@, 0, HASH_OFFSET),
            decreases ident_bytes.len() - i,
        {
            h = (h ^ (ident_bytes[i] as u64)).wrapping_mul(HASH_PRIME);
            i += 1;
        }
        h ^ fmt_id
    }
}

/// The name of the directory of a module: `name`, then `@version` where the
/// module has a version, then `#` and the identity number as 16 hexadecimal
/// digits where it has one.
pub open spec fn dir_name(d: DescriptorView) -> Seq<char> {
    let with_version = match d.version {
        Some(v) => d.name + "@"@ + version_display(v),
        None => d.name,
    };
    match d.uid {
        Some(uid) => with_version + "#"@ + numeral_fixed(uid as nat, 16, 16),
        None => with_version,
    }
}

/// The name of the directory in which the files of a module are kept.
pub fn dir_name_from_descriptor(desc: &ModuleDescriptor) -> (r: String)
    ensures
        r@ == dir_name(desc@),
{
    let mut out = str_to_string(desc.name());
    match desc.version() {
        Some(v) => {
            out.append("@");
            let text = v.to_string();
            out.append(text.as_str());
        },
        None => {},
    }
    match desc.uid() {
        Some(uid) => {
            out.append("#");
            let hex = u64_to_numeral_fixed(uid, 16, 16);
            out.append(hex.as_str());
        },
        None => {},
    }
    out
}

/// The position of the last `c` among the first `n` characters.
pub open spec fn last_index(s: Seq<char>, c: char, n: int) -> Option<int>
    decreases n,
{
    if n <= 0 || n > s.len() {
        None
    } else if s[n - 1] == c {
        Some(n - 1)
    } else {
        last_index(s, c, n - 1)
    }
}

/// The position of the first `c` at or after position `i` and before
/// position `end`.
pub open spec fn first_index(s: Seq<char>, c: char, i: int, end: int) -> Option<int>
    decreases end - i,
{
    if i < 0 || i >= end || i >= s.len() {
        None
    } else if s[i] == c {
        Some(i)
    } else {
        first_index(s, c, i + 1, end)
    }
}

/// The three parts of the name of a directory: the name of the module, the
/// text of the version after the first `@`, and the text of the identity
/// number after the last `#`.
pub open spec fn dir_name_parts(dir: Seq<char>) -> (Seq<char>, Option<Seq<char>>, Option<Seq<char>>) {
    let (end, uid) = match last_index(dir, '#', dir.len() as int) {
        Some(p) => (p, Some(dir.subrange(p + 1, dir.len() as int))),
        None => (dir.len() as int, None),
    };
    match first_index(dir, '@', 0, end) {
        Some(p) => (dir.subrange(0, p), Some(dir.subrange(p + 1, end)), uid),
        None => (dir.subrange(0, end), None, uid),
    }
}

/// The digits of the text of an identity number: the text without the
/// `+` that may stand before the digits.
pub open spec fn uid_digits(text: Seq<char>) -> Seq<char> {
    if text.len() > 1 && text[0] == '+' {
        text.skip(1)
    } else {
        text
    }
}

/// What reading a text as an identity number gives: the number that its
/// hexadecimal digits denote, or the reason why there is none. A `+` may
/// stand before the digits.
pub open spec fn parse_uid(text: Seq<char>) -> Result<u64, Seq<char>> {
    if text.len() == 0 {
        Err("cannot parse integer from empty string"@)
    } else if !is_numeral(uid_digits(text), 16) {
        Err("invalid digit found in string"@)
    } else if numeral_value(uid_digits(text), 16) > u64::MAX {
        Err("number too large to fit in target type"@)
    } else {
        Ok(numeral_value(uid_digits(text), 16) as u64)
    }
}

/// The descriptor made of the parts of the name of a directory, given what
/// parsing the version gave: the error of the version, else the error of
/// the identity number, else the descriptor.
pub open spec fn descriptor_of_parts(
    name: Seq<char>,
    version: Option<Result<VersionView, Seq<char>>>,
    uid: Option<Seq<char>>,
) -> Result<DescriptorView, Seq<char>> {
    match version {
        Some(Err(e)) => Err(e),
        _ => {
            let v = match version {
                Some(Ok(v)) => Some(v),
                _ => None,
            };
            match uid {
                None => Ok(DescriptorView { name, version: v, uid: None }),
                Some(text) => match parse_uid(text) {
                    Err(e) => Err(e),
                    Ok(n) => Ok(DescriptorView { name, version: v, uid: Some(n) }),
                },
            }
        },
    }
}

/// The descriptor that the name of a directory denotes.
pub open spec fn parse_dir_name(dir: Seq<char>) -> Result<DescriptorView, Seq<char>> {
    let (name, version, uid) = dir_name_parts(dir);
    descriptor_of_parts(
        name,
        match version {
            Some(text) => Some(semver_parse(text)),
            None => None,
        },
        uid,
    )
}

/// The view of a descriptor that was parsed, or of the message of the error.
pub open spec fn descriptor_result_view(r: Result<ModuleDescriptor, String>) -> Result<
    DescriptorView,
    Seq<char>,
> {
    match r {
        Ok(d) => Ok(d@),
        Err(e) => Err(e@),
    }
}

/// The view of the outcome of parsing a version that may be absent.
pub open spec fn version_outcome_view(v: Option<Result<Version, String>>) -> Option<
    Result<VersionView, Seq<char>>,
> {
    match v {
        Some(r) => Some(version_result_view(r)),
        None => None,
    }
}

/// The view of a text that may be absent.
pub open spec fn text_opt_view(t: Option<&str>) -> Option<Seq<char>> {
    match t {
        Some(s) => Some(s@),
        None => None,
    }
}

/// Reads a text as an identity number in hexadecimal digits, before which
/// a `+` may stand.
pub fn parse_uid_text(text: &str) -> (r: Result<u64, String>)
    ensures
        match r {
            Ok(n) => parse_uid(text@) == Ok::<u64, Seq<char>>(n),
            Err(e) => parse_uid(text@) == Err::<u64, Seq<char>>(e@),
        },
{
    let all = str_chars(text);
    if all.len() == 0 {
        return Err(str_to_string("cannot parse integer from empty string"));
    }
    let start: usize = if all.len() > 1 && all[0] == '+' {
        1
    } else {
        0
    };
    let mut chars: Vec<char> = Vec::new();
    let mut i: usize = start;
    while i < all.len()
        invariant
            start <= i <= all.len(),
            chars@ == all@.subrange(start as int, i as int),
        decreases all.len() - i,
    {
        chars.push(all[i]);
        assert(chars@ =~= all@.subrange(start as int, i + 1));
        i += 1;
    }
    assert(chars@ =~= uid_digits(text@));
    match chars_to_u64(&chars, 16) {
        Some(n) => Ok(n),
        None => {
            if chars_are_numeral(&chars, 16) {
                Err(str_to_string("number too large to fit in target type"))
            } else {
                Err(str_to_string("invalid digit found in string"))
            }
        },
    }
}

/// Makes a descriptor of the parts of the name of a directory, given what
/// parsing the version gave.
pub fn descriptor_from_parts(
    name: &str,
    version: Option<Result<Version, String>>,
    uid: Option<&str>,
) -> (r: Result<ModuleDescriptor, String>)
    ensures
        descriptor_result_view(r) == descriptor_of_parts(
            name@,
            version_outcome_view(version),
            text_opt_view(uid),
        ),
{
    let v = match version {
        Some(Err(e)) => {
            return Err(e);
        },
        Some(Ok(v)) => Some(v),
        None => None,
    };
    let n = match uid {
        None => None,
        Some(text) => match parse_uid_text(text) {
            Err(e) => {
                return Err(e);
            },
            Ok(n) => Some(n),
        },
    };
    Ok(ModuleDescriptor::new(str_to_string(name), v, n))
}

fn find_last(chars: &Vec<char>, c: char) -> (r: Option<usize>)
    ensures
        match r {
            Some(p) => last_index(chars@, c, chars@.len() as int) == Some(p as int) && p
                < chars.len(),
            None => last_index(chars@, c, chars@.len() as int) is None,
        },
{
    let mut n: usize = chars.len();
    while n > 0
        invariant
            0 <= n <= chars.len(),
            last_index(chars@, c, n as int) == last_index(chars@, c, chars@.len() as int),
        decreases n,
    {
        if chars[n - 1] == c {
            return Some(n - 1);
        }
        n -= 1;
    }
    None
}

fn find_first(chars: &Vec<char>, c: char, end: usize) -> (r: Option<usize>)
    requires
        end <= chars.len(),
    ensures
        match r {
            Some(p) => first_index(chars@, c, 0, end as int) == Some(p as int) && p < end,
            None => first_index(chars@, c, 0, end as int) is None,
        },
{
    let mut i: usize = 0;
    while i < end
        invariant
            0 <= i <= end,
            end <= chars.len(),
            first_index(chars@, c, i as int, end as int) == first_index(chars@, c, 0, end as int),
        decreases end - i,
    {
        if chars[i] == c {
            return Some(i);
        }
        i += 1;
    }
    None
}

/// Reads the name of a directory as the descriptor of the module it holds.
pub fn parse_descriptor_from_dir_name(dir_name: &str) -> (r: Result<ModuleDescriptor, String>)
    ensures
        descriptor_result_view(r) == parse_dir_name(dir_name@),
{
    let chars = str_chars(dir_name);
    let n = chars.len();
    let (end, uid) = match find_last(&chars, '#') {
        Some(p) => (p, Some(dir_name.substring_char(p + 1, n))),
        None => (n, None),
    };
    match find_first(&chars, '@', end) {
        Some(p) => {
            let name = dir_name.substring_char(0, p);
            let version = Version::parse(dir_name.substring_char(p + 1, end));
            descriptor_from_parts(name, Some(version), uid)
        },
        None => {
            let name = dir_name.substring_char(0, end);
            descriptor_from_parts(name, None, uid)
        },
    }
}


/// An identity number that is written as 16 hexadecimal digits is read
/// back as the same number.
pub proof fn law_uid_roundtrip(uid: u64)
    ensures
        parse_uid(numeral_fixed(uid as nat, 16, 16)) == Ok::<u64, Seq<char>>(uid),
{
    law_numeral_fixed_roundtrip(uid as nat, 16, 16);
    let p = vstd::arithmetic::power::pow(16, 16);
    assert(p == 0x1_0000_0000_0000_0000) by {
        reveal_with_fuel(vstd::arithmetic::power::pow, 17);
    }
    let hex = numeral_fixed(uid as nat, 16, 16);
    assert(digit_value(hex[0], 16) is Some);
    assert(uid_digits(hex) == hex);
    assert(numeral_value(hex, 16) == (uid as nat) % (p as nat));
    assert((uid as nat) % (p as nat) == uid as nat) by {
        vstd::arithmetic::div_mod::lemma_small_mod(uid as nat, p as nat);
    }
    assert(hex.len() == 16);
}

proof fn lemma_last_index_absent(s: Seq<char>, c: char, n: int)
    requires
        0 <= n <= s.len(),
        forall|i: int| 0 <= i < n ==> s[i] != c,
    ensures
        last_index(s, c, n) is None,
    decreases n,
{
    if n > 0 {
        lemma_last_index_absent(s, c, n - 1);
    }
}

proof fn lemma_last_index_found(s: Seq<char>, c: char, n: int, p: int)
    requires
        0 <= p < n <= s.len(),
        s[p] == c,
        forall|i: int| p < i < n ==> s[i] != c,
    ensures
        last_index(s, c, n) == Some(p),
    decreases n,
{
    if n - 1 > p {
        lemma_last_index_found(s, c, n - 1, p);
    }
}

proof fn lemma_first_index_absent(s: Seq<char>, c: char, i: int, end: int)
    requires
        0 <= i <= end <= s.len(),
        forall|k: int| i <= k < end ==> s[k] != c,
    ensures
        first_index(s, c, i, end) is None,
    decreases end - i,
{
    if i < end {
        lemma_first_index_absent(s, c, i + 1, end);
    }
}

/// The name of the directory of a module without a version is read back
/// as the descriptor of the module, where the name of the module holds
/// neither `#` nor `@`.
pub proof fn law_dir_name_roundtrip(d: DescriptorView)
    requires
        d.version is None,
        forall|i: int| 0 <= i < d.name.len() ==> d.name[i] != '#' && d.name[i] != '@',
    ensures
        parse_dir_name(dir_name(d)) == Ok::<DescriptorView, Seq<char>>(d),
{
    reveal_strlit("#");
    let dir = dir_name(d);
    let n = d.name.len() as int;
    lemma_first_index_absent(d.name, '@', 0, n);
    match d.uid {
        None => {
            assert(dir == d.name);
            lemma_last_index_absent(dir, '#', n);
            assert(dir.subrange(0, n) =~= d.name);
        },
        Some(uid) => {
            let hex = numeral_fixed(uid as nat, 16, 16);
            law_uid_roundtrip(uid);
            law_numeral_fixed_roundtrip(uid as nat, 16, 16);
            assert(dir == d.name + "#"@ + hex);
            assert(dir.len() == n + 17);
            assert(dir[n] == '#');
            assert forall|i: int| n < i < dir.len() implies dir[i] != '#' by {
                assert(dir[i] == hex[i - n - 1]);
                assert(digit_value(hex[i - n - 1], 16) is Some);
            }
            lemma_last_index_found(dir, '#', dir.len() as int, n);
            assert forall|k: int| 0 <= k < n implies dir[k] != '@' by {
                assert(dir[k] == d.name[k]);
            }
            lemma_first_index_absent(dir, '@', 0, n);
            assert(dir.subrange(0, n) =~= d.name);
            assert(dir.subrange(n + 1, dir.len() as int) =~= hex);
        },
    }
}

} // verus!
