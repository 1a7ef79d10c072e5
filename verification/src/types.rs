//! The CNI operations and the validated value objects: container ids, network
//! names, interface names and version triples. Each value object wraps a
//! string that its constructor has checked; the checks are stated exactly,
//! error by error.

use vstd::prelude::*;

use crate::strutil::is_ascii_alpha_char;
use crate::strutil::is_ascii_alphanumeric_char;
use crate::strutil::is_blank;
use crate::strutil::parse_u8_from_str;
use crate::strutil::spec_dec_digits;
use crate::strutil::spec_is_ascii_alpha;
use crate::strutil::spec_is_ascii_alphanumeric;
use crate::strutil::spec_is_ascii_digit;
use crate::strutil::spec_is_blank;
use crate::strutil::spec_parse_uint;
use crate::strutil::string_push;
use crate::strutil::u8_to_string;

verus! {

/// The closed set of CNI operations a runtime can ask a plugin to perform.
#[derive(Debug, Clone, Copy, PartialEq, Eq, Structural)]
pub enum CniOperation {
    Add,
    Delete,
    Check,
    Version,
    Status,
    GarbageCollect,
}

/// The textual token of an operation, as it goes into `CNI_COMMAND`.
pub open spec fn spec_operation_token(op: CniOperation) -> Seq<char> {
    match op {
        CniOperation::Add => "ADD"@,
        CniOperation::Delete => "DEL"@,
        CniOperation::Check => "CHECK"@,
        CniOperation::Version => "VERSION"@,
        CniOperation::Status => "STATUS"@,
        CniOperation::GarbageCollect => "GC"@,
    }
}

impl CniOperation {
    /// The textual form of the operation.
    pub fn as_str(&self) -> (r: &'static str)
        ensures
            r@ == spec_operation_token(*self),
    {
        match self {
            CniOperation::Add => "ADD",
            CniOperation::Delete => "DEL",
            CniOperation::Check => "CHECK",
            CniOperation::Version => "VERSION",
            CniOperation::Status => "STATUS",
            CniOperation::GarbageCollect => "GC",
        }
    }
}

/// Why a value failed validation.
#[derive(Debug, Clone, Copy, PartialEq, Eq, Structural)]
pub enum CniValidationError {
    IsEmptyOrBlank,
    FirstIsNotAlphabetic,
    ContainsForbiddenCharacter,
    TooLong { maximum_allowed: usize },
    IsForbiddenValue,
    IncorrectSplitAmount,
    SplitMissing,
    SplitNotParseable,
}

// --- container id --------------------------------------------------------

/// A character a container id may hold.
pub open spec fn spec_container_id_char(c: char) -> bool {
    spec_is_ascii_alphanumeric(c) || c == '.' || c == '_' || c == '-'
}

/// What `CniContainerId::new` finds wrong with a candidate, if anything:
/// it must not be blank, must start with an ASCII letter, and may hold only
/// ASCII letters, digits, `.`, `_` and `-`.
pub open spec fn spec_container_id_check(s: Seq<char>) -> Option<CniValidationError> {
    if spec_is_blank(s) {
        Some(CniValidationError::IsEmptyOrBlank)
    } else if !spec_is_ascii_alpha(s[0]) {
        Some(CniValidationError::FirstIsNotAlphabetic)
    } else if exists|i: int| 0 <= i < s.len() && !spec_container_id_char(#[trigger] s[i]) {
        Some(CniValidationError::ContainsForbiddenCharacter)
    } else {
        None
    }
}

/// A container id: a validated string.
#[derive(Debug, Eq)]
pub struct CniContainerId(String);

impl View for CniContainerId {
    type V = Seq<char>;

    closed spec fn view(&self) -> Seq<char> {
        self.0@
    }
}

impl PartialEq for CniContainerId {
    fn eq(&self, other: &Self) -> bool {
        self.0 == other.0
    }
}

impl vstd::std_specs::cmp::PartialEqSpecImpl for CniContainerId {
    open spec fn obeys_eq_spec() -> bool {
        true
    }

    open spec fn eq_spec(&self, other: &Self) -> bool {
        self@ == other@
    }
}

impl Clone for CniContainerId {
    /// A clone holds the same string.
    fn clone(&self) -> (r: Self)
        ensures
            r@ == self@,
    {
        CniContainerId(self.0.clone())
    }
}

impl CniContainerId {
    /// Validates a candidate container id, with the exact error that the
    /// first failing rule names.
    pub fn new(container_id: &str) -> (r: Result<CniContainerId, CniValidationError>)
        ensures
            match r {
                Ok(c) => spec_container_id_check(container_id@) is None && c@ == container_id@,
                Err(e) => spec_container_id_check(container_id@) == Some(e),
            },
    {
        if is_blank(container_id) {
            return Err(CniValidationError::IsEmptyOrBlank);
        }
        assert(container_id@.len() > 0) by {
            if container_id@.len() == 0 {
                assert(spec_is_blank(container_id@));
            }
        }
        if !is_ascii_alpha_char(container_id.get_char(0)) {
            return Err(CniValidationError::FirstIsNotAlphabetic);
        }
        let n = container_id.unicode_len();
        let mut i: usize = 0;
        while i < n
            invariant
                n == container_id@.len(),
                0 <= i <= n,
                !spec_is_blank(container_id@),
                spec_is_ascii_alpha(container_id@[0]),
                forall|j: int| 0 <= j < i ==> spec_container_id_char(#[trigger] container_id@[j]),
            decreases n - i,
        {
            let c = container_id.get_char(i);
            if !(is_ascii_alphanumeric_char(c) || c == '.' || c == '_' || c == '-') {
                proof {
                    assert(!spec_container_id_char(container_id@[i as int]));
                }
                return Err(CniValidationError::ContainsForbiddenCharacter);
            }
            i = i + 1;
        }
        Ok(CniContainerId(container_id.to_owned()))
    }

    /// The underlying string.
    pub fn as_str(&self) -> (r: &str)
        ensures
            r@ == self@,
    {
        self.0.as_str()
    }
}

// --- network name ---------------------------------------------------------

/// What `CniName::new` finds wrong with a candidate, if anything: it must
/// not be blank, must start with an ASCII letter, and may hold only ASCII
/// letters and digits.
pub open spec fn spec_name_check(s: Seq<char>) -> Option<CniValidationError> {
    if spec_is_blank(s) {
        Some(CniValidationError::IsEmptyOrBlank)
    } else if !spec_is_ascii_alpha(s[0]) {
        Some(CniValidationError::FirstIsNotAlphabetic)
    } else if exists|i: int| 0 <= i < s.len() && !spec_is_ascii_alphanumeric(#[trigger] s[i]) {
        Some(CniValidationError::ContainsForbiddenCharacter)
    } else {
        None
    }
}

/// A network or plugin-list name: a validated string.
#[derive(Debug, Eq)]
pub struct CniName(String);

impl View for CniName {
    type V = Seq<char>;

    closed spec fn view(&self) -> Seq<char> {
        self.0@
    }
}

impl PartialEq for CniName {
    fn eq(&self, other: &Self) -> bool {
        self.0 == other.0
    }
}

impl vstd::std_specs::cmp::PartialEqSpecImpl for CniName {
    open spec fn obeys_eq_spec() -> bool {
        true
    }

    open spec fn eq_spec(&self, other: &Self) -> bool {
        self@ == other@
    }
}

impl Clone for CniName {
    /// A clone holds the same string.
    fn clone(&self) -> (r: Self)
        ensures
            r@ == self@,
    {
        CniName(self.0.clone())
    }
}

impl CniName {
    /// Validates a candidate name, with the exact error that the first
    /// failing rule names.
    pub fn new(name: &str) -> (r: Result<CniName, CniValidationError>)
        ensures
            match r {
                Ok(c) => spec_name_check(name@) is None && c@ == name@,
                Err(e) => spec_name_check(name@) == Some(e),
            },
    {
        if is_blank(name) {
            return Err(CniValidationError::IsEmptyOrBlank);
        }
        assert(name@.len() > 0) by {
            if name@.len() == 0 {
                assert(spec_is_blank(name@));
            }
        }
        if !is_ascii_alpha_char(name.get_char(0)) {
            return Err(CniValidationError::FirstIsNotAlphabetic);
        }
        let n = name.unicode_len();
        let mut i: usize = 0;
        while i < n
            invariant
                n == name@.len(),
                0 <= i <= n,
                !spec_is_blank(name@),
                spec_is_ascii_alpha(name@[0]),
                forall|j: int| 0 <= j < i ==> spec_is_ascii_alphanumeric(#[trigger] name@[j]),
            decreases n - i,
        {
            if !is_ascii_alphanumeric_char(name.get_char(i)) {
                proof {
                    assert(!spec_is_ascii_alphanumeric(name@[i as int]));
                }
                return Err(CniValidationError::ContainsForbiddenCharacter);
            }
            i = i + 1;
        }
        Ok(CniName(name.to_owned()))
    }

    /// The underlying string.
    pub fn as_str(&self) -> (r: &str)
        ensures
            r@ == self@,
    {
        self.0.as_str()
    }
}

// --- interface name --------------------------------------------------------

/// The longest interface name the kernel accepts, in bytes.
pub const IFNAME_MAX_LENGTH: usize = 15;

/// A character an interface name must not hold.
pub open spec fn spec_ifname_forbidden_char(c: char) -> bool {
    c == ' ' || c == ':' || c == '/'
}

/// What `CniInterfaceName::new` finds wrong with a candidate, if anything:
/// it must not be blank, must take at most fifteen bytes, must not be `.`
/// or `..`, and must not hold a space, `:` or `/`.
pub open spec fn spec_interface_name_check(s: Seq<char>) -> Option<CniValidationError> {
    if spec_is_blank(s) {
        Some(CniValidationError::IsEmptyOrBlank)
    } else if vstd::utf8::encode_utf8(s).len() > IFNAME_MAX_LENGTH {
        Some(CniValidationError::TooLong { maximum_allowed: IFNAME_MAX_LENGTH })
    } else if s == seq!['.'] || s == seq!['.', '.'] {
        Some(CniValidationError::IsForbiddenValue)
    } else if exists|i: int| 0 <= i < s.len() && spec_ifname_forbidden_char(#[trigger] s[i]) {
        Some(CniValidationError::ContainsForbiddenCharacter)
    } else {
        None
    }
}

/// A network interface name: a validated string.
#[derive(Debug, Eq)]
pub struct CniInterfaceName(String);

impl View for CniInterfaceName {
    type V = Seq<char>;

    closed spec fn view(&self) -> Seq<char> {
        self.0@
    }
}

impl PartialEq for CniInterfaceName {
    fn eq(&self, other: &Self) -> bool {
        self.0 == other.0
    }
}

impl vstd::std_specs::cmp::PartialEqSpecImpl for CniInterfaceName {
    open spec fn obeys_eq_spec() -> bool {
        true
    }

    open spec fn eq_spec(&self, other: &Self) -> bool {
        self@ == other@
    }
}

impl Clone for CniInterfaceName {
    /// A clone holds the same string.
    fn clone(&self) -> (r: Self)
        ensures
            r@ == self@,
    {
        CniInterfaceName(self.0.clone())
    }
}

impl CniInterfaceName {
    /// Validates a candidate interface name, with the exact error that the
    /// first failing rule names.
    pub fn new(interface_name: &str) -> (r: Result<CniInterfaceName, CniValidationError>)
        ensures
            match r {
                Ok(c) => spec_interface_name_check(interface_name@) is None && c@
                    == interface_name@,
                Err(e) => spec_interface_name_check(interface_name@) == Some(e),
            },
    {
        if is_blank(interface_name) {
            return Err(CniValidationError::IsEmptyOrBlank);
        }
        let byte_len = interface_name.as_bytes().len();
        assert(byte_len == vstd::utf8::encode_utf8(interface_name@).len());
        if byte_len > IFNAME_MAX_LENGTH {
            return Err(CniValidationError::TooLong { maximum_allowed: IFNAME_MAX_LENGTH });
        }
        let n = interface_name.unicode_len();
        if n == 1 && interface_name.get_char(0) == '.' {
            proof {
                assert(interface_name@ =~= seq!['.']);
            }
            return Err(CniValidationError::IsForbiddenValue);
        }
        if n == 2 && interface_name.get_char(0) == '.' && interface_name.get_char(1) == '.' {
            proof {
                assert(interface_name@ =~= seq!['.', '.']);
            }
            return Err(CniValidationError::IsForbiddenValue);
        }
        assert(interface_name@ != seq!['.'] && interface_name@ != seq!['.', '.']);
        let mut i: usize = 0;
        while i < n
            invariant
                n == interface_name@.len(),
                0 <= i <= n,
                !spec_is_blank(interface_name@),
                vstd::utf8::encode_utf8(interface_name@).len() <= IFNAME_MAX_LENGTH,
                interface_name@ != seq!['.'] && interface_name@ != seq!['.', '.'],
                forall|j: int|
                    0 <= j < i ==> !spec_ifname_forbidden_char(#[trigger] interface_name@[j]),
            decreases n - i,
        {
            let c = interface_name.get_char(i);
            if c == ' ' || c == ':' || c == '/' {
                proof {
                    assert(spec_ifname_forbidden_char(interface_name@[i as int]));
                }
                return Err(CniValidationError::ContainsForbiddenCharacter);
            }
            i = i + 1;
        }
        Ok(CniInterfaceName(interface_name.to_owned()))
    }

    /// The underlying string.
    pub fn as_str(&self) -> (r: &str)
        ensures
            r@ == self@,
    {
        self.0.as_str()
    }
}

// --- version ----------------------------------------------------------------

/// The canonical text of a version triple: `MAJOR.MINOR.PATCH` in decimal.
pub open spec fn spec_version_text(major: nat, minor: nat, patch: nat) -> Seq<char> {
    spec_dec_digits(major) + seq!['.'] + spec_dec_digits(minor) + seq!['.'] + spec_dec_digits(
        patch,
    )
}

/// A string in the canonical shape of a version triple.
pub open spec fn spec_valid_version(s: Seq<char>) -> bool {
    exists|major: nat, minor: nat, patch: nat|
        major <= 255 && minor <= 255 && patch <= 255 && s == #[trigger] spec_version_text(
            major,
            minor,
            patch,
        )
}

/// The parts of a string between its dots, the semantics of
/// `str::split('.')`.
pub open spec fn spec_split_dots(s: Seq<char>) -> Seq<Seq<char>>
    decreases s.len(),
{
    if s.len() == 0 {
        seq![Seq::<char>::empty()]
    } else {
        let rest = spec_split_dots(s.drop_last());
        if s.last() == '.' {
            rest.push(Seq::<char>::empty())
        } else {
            rest.update(rest.len() - 1, rest.last().push(s.last()))
        }
    }
}

proof fn lemma_split_dots_len(s: Seq<char>)
    ensures
        spec_split_dots(s).len() >= 1,
    decreases s.len(),
{
    if s.len() > 0 {
        lemma_split_dots_len(s.drop_last());
    }
}

/// What `CniVersion::parse` reads out of a string: exactly three
/// dot-separated parts, each an unsigned 8-bit decimal as `str::parse::<u8>`
/// accepts it, rebuilt as the canonical text.
pub open spec fn spec_version_parse(s: Seq<char>) -> Result<Seq<char>, CniValidationError> {
    let parts = spec_split_dots(s);
    if parts.len() != 3 {
        Err(CniValidationError::IncorrectSplitAmount)
    } else if spec_parse_uint(parts[0], 255, true) is None {
        Err(CniValidationError::SplitNotParseable)
    } else if spec_parse_uint(parts[1], 255, true) is None {
        Err(CniValidationError::SplitNotParseable)
    } else if spec_parse_uint(parts[2], 255, true) is None {
        Err(CniValidationError::SplitNotParseable)
    } else {
        Ok(
            spec_version_text(
                spec_parse_uint(parts[0], 255, true)->0,
                spec_parse_uint(parts[1], 255, true)->0,
                spec_parse_uint(parts[2], 255, true)->0,
            ),
        )
    }
}

/// A version triple, held as its canonical `MAJOR.MINOR.PATCH` text.
#[derive(Debug, Eq)]
pub struct CniVersion(String);

impl View for CniVersion {
    type V = Seq<char>;

    closed spec fn view(&self) -> Seq<char> {
        self.0@
    }
}

impl PartialEq for CniVersion {
    fn eq(&self, other: &Self) -> bool {
        self.0 == other.0
    }
}

impl vstd::std_specs::cmp::PartialEqSpecImpl for CniVersion {
    open spec fn obeys_eq_spec() -> bool {
        true
    }

    open spec fn eq_spec(&self, other: &Self) -> bool {
        self@ == other@
    }
}

impl Clone for CniVersion {
    /// A clone holds the same string.
    fn clone(&self) -> (r: Self)
        ensures
            r@ == self@,
    {
        CniVersion(self.0.clone())
    }
}

impl CniVersion {
    /// Builds the canonical text of the triple.
    pub fn new(major: u8, minor: u8, patch: u8) -> (r: CniVersion)
        ensures
            r@ == spec_version_text(major as nat, minor as nat, patch as nat),
            spec_valid_version(r@),
    {
        proof {
            reveal_strlit(".");
        }
        let mut s = u8_to_string(major);
        s.append(".");
        let minor_s = u8_to_string(minor);
        s.append(minor_s.as_str());
        s.append(".");
        let patch_s = u8_to_string(patch);
        s.append(patch_s.as_str());
        proof {
            assert("."@ =~= seq!['.']);
            assert(s@ =~= spec_version_text(major as nat, minor as nat, patch as nat));
        }
        CniVersion(s)
    }

    /// Parses `MAJOR.MINOR.PATCH`, with the exact error that the first
    /// failing rule names.
    pub fn parse(value: &str) -> (r: Result<CniVersion, CniValidationError>)
        ensures
            match r {
                Ok(v) => spec_version_parse(value@) == Ok::<Seq<char>, CniValidationError>(v@)
                    && spec_valid_version(v@),
                Err(e) => spec_version_parse(value@) == Err::<Seq<char>, CniValidationError>(e),
            },
    {
        let parts = split_dots(value);
        proof {
            lemma_split_dots_len(value@);
        }
        if parts.len() != 3 {
            return Err(CniValidationError::IncorrectSplitAmount);
        }
        let major = match parse_u8_from_str(parts[0].as_str()) {
            Some(v) => v,
            None => {
                return Err(CniValidationError::SplitNotParseable);
            },
        };
        let minor = match parse_u8_from_str(parts[1].as_str()) {
            Some(v) => v,
            None => {
                return Err(CniValidationError::SplitNotParseable);
            },
        };
        let patch = match parse_u8_from_str(parts[2].as_str()) {
            Some(v) => v,
            None => {
                return Err(CniValidationError::SplitNotParseable);
            },
        };
        Ok(CniVersion::new(major, minor, patch))
    }

    /// The underlying canonical text.
    pub fn as_str(&self) -> (r: &str)
        ensures
            r@ == self@,
    {
        self.0.as_str()
    }
}

proof fn lemma_split_dots_no_dots(s: Seq<char>)
    requires
        forall|i: int| 0 <= i < s.len() ==> #[trigger] s[i] != '.',
    ensures
        spec_split_dots(s) == seq![s],
    decreases s.len(),
{
    if s.len() == 0 {
        assert(spec_split_dots(s) =~~= seq![s]);
    } else {
        lemma_split_dots_no_dots(s.drop_last());
        assert(s.last() != '.');
        assert(spec_split_dots(s) =~~= seq![s]) by {
            assert(s.drop_last().push(s.last()) =~= s);
            assert(seq![s.drop_last()].update(0, s.drop_last().push(s.last())) =~~= seq![s]);
        }
    }
}

proof fn lemma_split_dots_append_dot(a: Seq<char>)
    ensures
        spec_split_dots(a + seq!['.']) == spec_split_dots(a).push(Seq::<char>::empty()),
{
    lemma_split_dots_len(a);
    let s = a + seq!['.'];
    assert(s.len() == a.len() + 1);
    assert(s.drop_last() =~= a);
    assert(s.last() == '.');
}

proof fn lemma_split_dots_append_no_dots(a: Seq<char>, b: Seq<char>)
    requires
        forall|i: int| 0 <= i < b.len() ==> #[trigger] b[i] != '.',
    ensures
        spec_split_dots(a + b) == spec_split_dots(a).update(
            spec_split_dots(a).len() - 1,
            spec_split_dots(a).last() + b,
        ),
    decreases b.len(),
{
    lemma_split_dots_len(a);
    let pa = spec_split_dots(a);
    if b.len() == 0 {
        assert(a + b =~= a);
        assert(pa.last() + b =~= pa.last());
        assert(pa.update(pa.len() - 1, pa.last() + b) =~~= pa);
    } else {
        assert(forall|i: int| 0 <= i < b.drop_last().len() ==> #[trigger] b.drop_last()[i] != '.');
        lemma_split_dots_append_no_dots(a, b.drop_last());
        let s = a + b;
        assert(s.len() > 0);
        assert(s.drop_last() =~= a + b.drop_last());
        assert(s.last() == b.last());
        assert(b.last() != '.');
        let mid = pa.update(pa.len() - 1, pa.last() + b.drop_last());
        assert(spec_split_dots(s.drop_last()) == mid);
        assert(mid.len() == pa.len());
        assert(mid.last() == pa.last() + b.drop_last());
        assert(spec_split_dots(s) == mid.update(mid.len() - 1, mid.last().push(b.last())));
        assert((pa.last() + b.drop_last()).push(b.last()) =~= pa.last() + b);
        assert(mid.update(mid.len() - 1, mid.last().push(b.last())) =~~= pa.update(
            pa.len() - 1,
            pa.last() + b,
        ));
    }
}

/// A canonical version text splits at its dots into the three decimal runs
/// and parses back to itself: printing and parsing are inverse.
pub proof fn lemma_version_round_trip(major: nat, minor: nat, patch: nat)
    requires
        major <= 255,
        minor <= 255,
        patch <= 255,
    ensures
        spec_version_parse(spec_version_text(major, minor, patch)) == Ok::<
            Seq<char>,
            CniValidationError,
        >(spec_version_text(major, minor, patch)),
{
    let da = spec_dec_digits(major);
    let db = spec_dec_digits(minor);
    let dc = spec_dec_digits(patch);
    crate::strutil::lemma_dec_digits_are_digits(major);
    crate::strutil::lemma_dec_digits_are_digits(minor);
    crate::strutil::lemma_dec_digits_are_digits(patch);
    assert(forall|i: int| 0 <= i < da.len() ==> #[trigger] da[i] != '.') by {
        assert(forall|i: int|
            0 <= i < da.len() ==> spec_is_ascii_digit(#[trigger] da[i]) && '.' as u32 == 46);
    }
    assert(forall|i: int| 0 <= i < db.len() ==> #[trigger] db[i] != '.') by {
        assert(forall|i: int|
            0 <= i < db.len() ==> spec_is_ascii_digit(#[trigger] db[i]) && '.' as u32 == 46);
    }
    assert(forall|i: int| 0 <= i < dc.len() ==> #[trigger] dc[i] != '.') by {
        assert(forall|i: int|
            0 <= i < dc.len() ==> spec_is_ascii_digit(#[trigger] dc[i]) && '.' as u32 == 46);
    }
    let s2 = da + seq!['.'];
    let s3 = s2 + db;
    let s4 = s3 + seq!['.'];
    let s5 = s4 + dc;
    assert(s5 =~= spec_version_text(major, minor, patch));
    lemma_split_dots_no_dots(da);
    lemma_split_dots_append_dot(da);
    assert(spec_split_dots(s2) == seq![da, Seq::<char>::empty()]) by {
        assert(seq![da].push(Seq::<char>::empty()) =~~= seq![da, Seq::<char>::empty()]);
    }
    lemma_split_dots_append_no_dots(s2, db);
    assert(spec_split_dots(s3) == seq![da, db]) by {
        assert(Seq::<char>::empty() + db =~= db);
        assert(seq![da, Seq::<char>::empty()].update(1, Seq::<char>::empty() + db) =~~= seq![
            da,
            db,
        ]);
    }
    lemma_split_dots_append_dot(s3);
    assert(spec_split_dots(s4) == seq![da, db, Seq::<char>::empty()]) by {
        assert(seq![da, db].push(Seq::<char>::empty()) =~~= seq![da, db, Seq::<char>::empty()]);
    }
    lemma_split_dots_append_no_dots(s4, dc);
    assert(spec_split_dots(s5) == seq![da, db, dc]) by {
        assert(Seq::<char>::empty() + dc =~= dc);
        assert(seq![da, db, Seq::<char>::empty()].update(2, Seq::<char>::empty() + dc) =~~= seq![
            da,
            db,
            dc,
        ]);
    }
    crate::strutil::lemma_dec_digits_parse(major);
    crate::strutil::lemma_dec_digits_parse(minor);
    crate::strutil::lemma_dec_digits_parse(patch);
    assert(seq![da, db, dc][0] == da && seq![da, db, dc][1] == db && seq![da, db, dc][2] == dc);
}

/// Where a plugin's network namespace lives: a file-system path, or a
/// custom label named like a network.
#[derive(Debug)]
pub enum CniNetworkNamespace {
    LinuxNamespace(String),
    Custom(CniName),
}

/// The text a namespace contributes to `CNI_NETNS`.
pub open spec fn spec_netns_text(ns: CniNetworkNamespace) -> Seq<char> {
    match ns {
        CniNetworkNamespace::LinuxNamespace(p) => p@,
        CniNetworkNamespace::Custom(n) => n@,
    }
}

impl CniNetworkNamespace {
    /// The text that goes into `CNI_NETNS`.
    pub fn to_text(&self) -> (r: String)
        ensures
            r@ == spec_netns_text(*self),
    {
        match self {
            CniNetworkNamespace::LinuxNamespace(p) => p.clone(),
            CniNetworkNamespace::Custom(n) => n.as_str().to_owned(),
        }
    }
}

/// Whatever a version reading returns is canonical: it is a valid version
/// text, and reading it again gives it back unchanged.
pub proof fn lemma_version_parse_valid(s: Seq<char>)
    ensures
        spec_version_parse(s) matches Ok(c) ==> spec_valid_version(c) && spec_version_parse(c)
            == Ok::<Seq<char>, CniValidationError>(c),
{
    match spec_version_parse(s) {
        Result::Ok(c) => {
            let parts = spec_split_dots(s);
            let v0 = spec_parse_uint(parts[0], 255, true)->0;
            let v1 = spec_parse_uint(parts[1], 255, true)->0;
            let v2 = spec_parse_uint(parts[2], 255, true)->0;
            assert(v0 <= 255 && v1 <= 255 && v2 <= 255);
            assert(c == spec_version_text(v0, v1, v2));
            lemma_version_round_trip(v0, v1, v2);
        },
        Result::Err(_) => {},
    }
}

/// A valid version text reads back as itself.
pub proof fn lemma_valid_version_parses(s: Seq<char>)
    requires
        spec_valid_version(s),
    ensures
        spec_version_parse(s) == Ok::<Seq<char>, CniValidationError>(s),
{
    let (ma, mi, pa) = choose|ma: nat, mi: nat, pa: nat|
        ma <= 255 && mi <= 255 && pa <= 255 && s == #[trigger] spec_version_text(ma, mi, pa);
    lemma_version_round_trip(ma, mi, pa);
}

/// The shape of a sequence of strings.
pub open spec fn spec_strings_view(s: Seq<String>) -> Seq<Seq<char>> {
    Seq::new(
        s.len(),
        |i: int|
            if 0 <= i < s.len() {
                s[i]@
            } else {
                Seq::<char>::empty()
            },
    )
}

/// Splits a string at every dot.
fn split_dots(s: &str) -> (r: Vec<String>)
    ensures
        spec_strings_view(r@) == spec_split_dots(s@),
{
    let n = s.unicode_len();
    let mut parts: Vec<String> = Vec::new();
    let mut cur: String = String::new();
    let mut i: usize = 0;
    while i < n
        invariant
            n == s@.len(),
            0 <= i <= n,
            spec_strings_view(parts@).push(cur@) =~= spec_split_dots(s@.subrange(0, i as int)),
        decreases n - i,
    {
        let ghost pre = s@.subrange(0, i as int);
        let ghost post = s@.subrange(0, i + 1);
        proof {
            assert(post.drop_last() =~= pre);
            assert(post.last() == s@[i as int]);
        }
        let c = s.get_char(i);
        if c == '.' {
            parts.push(cur);
            cur = String::new();
            proof {
                assert(spec_strings_view(parts@).push(cur@) =~= spec_split_dots(post));
            }
        } else {
            string_push(&mut cur, c);
            proof {
                let combined = spec_split_dots(pre);
                assert(spec_strings_view(parts@).push(cur@) =~= combined.update(
                    combined.len() - 1,
                    combined.last().push(c),
                ));
            }
        }
        i = i + 1;
    }
    proof {
        assert(s@.subrange(0, n as int) =~= s@);
    }
    parts.push(cur);
    proof {
        assert(spec_strings_view(parts@) =~= spec_split_dots(s@));
    }
    parts
}

} // verus!
