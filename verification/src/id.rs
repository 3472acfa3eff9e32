//! Branded identifiers. Construction is the only validation gate.

use vstd::prelude::*;
use crate::error::InvalidId;
use crate::text::{copy_str, contains_char, spec_trim, to_chars, trim_vec, from_chars};

verus! {

/// A slug segment: non-empty and free of `.` (so address segments stay unambiguous).
pub open spec fn spec_valid_slug(s: Seq<char>) -> bool {
    s.len() > 0 && !s.contains('.')
}

/// What `new` makes of `raw` for a slug kind: the trimmed text, or the text it rejected.
pub open spec fn spec_slug_result(raw: Seq<char>) -> Result<Seq<char>, Seq<char>> {
    let t = spec_trim(raw);
    if t.len() == 0 {
        Err(raw)
    } else if t.contains('.') {
        Err(t)
    } else {
        Ok(t)
    }
}

/// Why a slug kind rejects `raw`: empty after trimming, or else holding a `.`.
pub open spec fn slug_reason(raw: Seq<char>) -> Seq<char> {
    if spec_trim(raw).len() == 0 {
        "must be non-empty"@
    } else {
        "must not contain '.'"@
    }
}

/// What `new` makes of `raw` for an opaque kind: the trimmed text, or `raw` when that is empty.
pub open spec fn spec_opaque_result(raw: Seq<char>) -> Result<Seq<char>, Seq<char>> {
    let t = spec_trim(raw);
    if t.len() == 0 {
        Err(raw)
    } else {
        Ok(t)
    }
}

/// Checks a slug segment: `Ok(trimmed)` or `Err((rejected text, reason))`.
fn check_slug(raw: &str) -> (r: Result<String, (String, &'static str)>)
    ensures
        r matches Ok(s) ==> spec_slug_result(raw@) == Ok::<Seq<char>, Seq<char>>(s@),
        r matches Err(e) ==> spec_slug_result(raw@) == Err::<Seq<char>, Seq<char>>(e.0@),
        r matches Err(e) ==> (e.1@ == "must be non-empty"@ <==> spec_trim(raw@).len() == 0),
        r matches Err(e) ==> (spec_trim(raw@).len() > 0 ==> e.1@ == "must not contain '.'"@),
{
    let v = to_chars(raw);
    let t = trim_vec(&v);
    if t.len() == 0 {
        return Err((copy_str(raw), "must be non-empty"));
    }
    if contains_char(&t, '.') {
        proof {
            reveal_strlit("must be non-empty");
            reveal_strlit("must not contain '.'");
            assert("must be non-empty"@[5] != "must not contain '.'"@[5]);
        }
        return Err((from_chars(&t), "must not contain '.'"));
    }
    Ok(from_chars(&t))
}

/// Checks an opaque id: `Ok(trimmed)` or `Err(raw)`.
fn check_opaque(raw: &str) -> (r: Result<String, String>)
    ensures
        r matches Ok(s) ==> spec_opaque_result(raw@) == Ok::<Seq<char>, Seq<char>>(s@),
        r matches Err(e) ==> spec_opaque_result(raw@) == Err::<Seq<char>, Seq<char>>(e@),
{
    let v = to_chars(raw);
    let t = trim_vec(&v);
    if t.len() == 0 {
        return Err(copy_str(raw));
    }
    Ok(from_chars(&t))
}

/// Catalog slug for one API surface (`vercel`, `github`).
#[derive(Debug, PartialEq, Eq, Hash, PartialOrd, Ord)]
pub struct IntegrationSlug(String);

impl Clone for IntegrationSlug {
    fn clone(&self) -> (r: Self)
        ensures
            r@ == self@,
    {
        proof {
            use_type_invariant(self);
        }
        IntegrationSlug(self.0.clone())
    }
}

impl View for IntegrationSlug {
    type V = Seq<char>;

    closed spec fn view(&self) -> Seq<char> {
        self.0@
    }
}

impl IntegrationSlug {
    #[verifier::type_invariant]
    spec fn wf(&self) -> bool {
        spec_valid_slug(self.0@) && spec_trim(self.0@) == self.0@
    }

    /// Parse a slug segment.
    ///
    /// # Errors
    ///
    /// Empty after trimming, or containing `.`.
    pub fn new(raw: &str) -> (r: Result<Self, InvalidId>)
        ensures
            r matches Ok(id) ==> spec_slug_result(raw@) == Ok::<Seq<char>, Seq<char>>(id@),
            r matches Err(e) ==> spec_slug_result(raw@) == Err::<Seq<char>, Seq<char>>(e.value@),
            r matches Err(e) ==> e.kind@ == "integration slug"@,
            r matches Err(e) ==> e.reason@ == slug_reason(raw@),
    {
        proof {
            crate::text::lemma_trim_shape(raw@);
        }
        match check_slug(raw) {
            Ok(s) => Ok(IntegrationSlug(s)),
            Err((value, reason)) => Err(InvalidId { kind: "integration slug", value, reason }),
        }
    }

    /// Borrow the raw text.
    pub fn as_str(&self) -> (r: &str)
        ensures
            r@ == self@,
            spec_valid_slug(self@),
            spec_trim(self@) == self@,
    {
        proof {
            use_type_invariant(self);
        }
        self.0.as_str()
    }
}

/// Connection name — the account (`work`, `personal`, `prod`).
#[derive(Debug, PartialEq, Eq, Hash, PartialOrd, Ord)]
pub struct ConnectionName(String);

impl Clone for ConnectionName {
    fn clone(&self) -> (r: Self)
        ensures
            r@ == self@,
    {
        proof {
            use_type_invariant(self);
        }
        ConnectionName(self.0.clone())
    }
}

impl View for ConnectionName {
    type V = Seq<char>;

    closed spec fn view(&self) -> Seq<char> {
        self.0@
    }
}

impl ConnectionName {
    #[verifier::type_invariant]
    spec fn wf(&self) -> bool {
        spec_valid_slug(self.0@) && spec_trim(self.0@) == self.0@
    }

    /// Parse a slug segment.
    ///
    /// # Errors
    ///
    /// Empty after trimming, or containing `.`.
    pub fn new(raw: &str) -> (r: Result<Self, InvalidId>)
        ensures
            r matches Ok(id) ==> spec_slug_result(raw@) == Ok::<Seq<char>, Seq<char>>(id@),
            r matches Err(e) ==> spec_slug_result(raw@) == Err::<Seq<char>, Seq<char>>(e.value@),
            r matches Err(e) ==> e.kind@ == "connection name"@,
            r matches Err(e) ==> e.reason@ == slug_reason(raw@),
    {
        proof {
            crate::text::lemma_trim_shape(raw@);
        }
        match check_slug(raw) {
            Ok(s) => Ok(ConnectionName(s)),
            Err((value, reason)) => Err(InvalidId { kind: "connection name", value, reason }),
        }
    }

    /// Borrow the raw text.
    pub fn as_str(&self) -> (r: &str)
        ensures
            r@ == self@,
            spec_valid_slug(self@),
            spec_trim(self@) == self@,
    {
        proof {
            use_type_invariant(self);
        }
        self.0.as_str()
    }
}

/// Plugin id (`openapi`, `graphql`, `mcp`, `core-tools`).
#[derive(Debug, PartialEq, Eq, Hash, PartialOrd, Ord)]
pub struct PluginId(String);

impl Clone for PluginId {
    fn clone(&self) -> (r: Self)
        ensures
            r@ == self@,
    {
        proof {
            use_type_invariant(self);
        }
        PluginId(self.0.clone())
    }
}

impl View for PluginId {
    type V = Seq<char>;

    closed spec fn view(&self) -> Seq<char> {
        self.0@
    }
}

impl PluginId {
    #[verifier::type_invariant]
    spec fn wf(&self) -> bool {
        spec_valid_slug(self.0@) && spec_trim(self.0@) == self.0@
    }

    /// Parse a slug segment.
    ///
    /// # Errors
    ///
    /// Empty after trimming, or containing `.`.
    pub fn new(raw: &str) -> (r: Result<Self, InvalidId>)
        ensures
            r matches Ok(id) ==> spec_slug_result(raw@) == Ok::<Seq<char>, Seq<char>>(id@),
            r matches Err(e) ==> spec_slug_result(raw@) == Err::<Seq<char>, Seq<char>>(e.value@),
            r matches Err(e) ==> e.kind@ == "plugin id"@,
            r matches Err(e) ==> e.reason@ == slug_reason(raw@),
    {
        proof {
            crate::text::lemma_trim_shape(raw@);
        }
        match check_slug(raw) {
            Ok(s) => Ok(PluginId(s)),
            Err((value, reason)) => Err(InvalidId { kind: "plugin id", value, reason }),
        }
    }

    /// Borrow the raw text.
    pub fn as_str(&self) -> (r: &str)
        ensures
            r@ == self@,
            spec_valid_slug(self@),
            spec_trim(self@) == self@,
    {
        proof {
            use_type_invariant(self);
        }
        self.0.as_str()
    }
}

/// Secret backend key (`default`, `env`, `file`).
#[derive(Debug, PartialEq, Eq, Hash, PartialOrd, Ord)]
pub struct ProviderKey(String);

impl Clone for ProviderKey {
    fn clone(&self) -> (r: Self)
        ensures
            r@ == self@,
    {
        proof {
            use_type_invariant(self);
        }
        ProviderKey(self.0.clone())
    }
}

impl View for ProviderKey {
    type V = Seq<char>;

    closed spec fn view(&self) -> Seq<char> {
        self.0@
    }
}

impl ProviderKey {
    #[verifier::type_invariant]
    spec fn wf(&self) -> bool {
        spec_valid_slug(self.0@) && spec_trim(self.0@) == self.0@
    }

    /// Parse a slug segment.
    ///
    /// # Errors
    ///
    /// Empty after trimming, or containing `.`.
    pub fn new(raw: &str) -> (r: Result<Self, InvalidId>)
        ensures
            r matches Ok(id) ==> spec_slug_result(raw@) == Ok::<Seq<char>, Seq<char>>(id@),
            r matches Err(e) ==> spec_slug_result(raw@) == Err::<Seq<char>, Seq<char>>(e.value@),
            r matches Err(e) ==> e.kind@ == "provider key"@,
            r matches Err(e) ==> e.reason@ == slug_reason(raw@),
    {
        proof {
            crate::text::lemma_trim_shape(raw@);
        }
        match check_slug(raw) {
            Ok(s) => Ok(ProviderKey(s)),
            Err((value, reason)) => Err(InvalidId { kind: "provider key", value, reason }),
        }
    }

    /// Borrow the raw text.
    pub fn as_str(&self) -> (r: &str)
        ensures
            r@ == self@,
            spec_valid_slug(self@),
            spec_trim(self@) == self@,
    {
        proof {
            use_type_invariant(self);
        }
        self.0.as_str()
    }
}

/// Tool name. May contain `.` (`aliases.deleteAlias`).
#[derive(Debug, PartialEq, Eq, Hash, PartialOrd, Ord)]
pub struct ToolName(String);

impl Clone for ToolName {
    fn clone(&self) -> (r: Self)
        ensures
            r@ == self@,
    {
        proof {
            use_type_invariant(self);
        }
        ToolName(self.0.clone())
    }
}

impl View for ToolName {
    type V = Seq<char>;

    closed spec fn view(&self) -> Seq<char> {
        self.0@
    }
}

impl ToolName {
    #[verifier::type_invariant]
    spec fn wf(&self) -> bool {
        self.0@.len() > 0 && spec_trim(self.0@) == self.0@
    }

    /// Parse a non-empty identifier.
    ///
    /// # Errors
    ///
    /// Empty after trimming.
    pub fn new(raw: &str) -> (r: Result<Self, InvalidId>)
        ensures
            r matches Ok(id) ==> spec_opaque_result(raw@) == Ok::<Seq<char>, Seq<char>>(id@),
            r matches Err(e) ==> spec_opaque_result(raw@) == Err::<Seq<char>, Seq<char>>(e.value@),
            r matches Err(e) ==> e.kind@ == "tool name"@ && e.reason@ == "must be non-empty"@,
    {
        proof {
            crate::text::lemma_trim_shape(raw@);
        }
        match check_opaque(raw) {
            Ok(s) => Ok(ToolName(s)),
            Err(value) => Err(InvalidId { kind: "tool name", value, reason: "must be non-empty" }),
        }
    }

    /// Borrow the raw text.
    pub fn as_str(&self) -> (r: &str)
        ensures
            r@ == self@,
            r@.len() > 0,
            spec_trim(self@) == self@,
    {
        proof {
            use_type_invariant(self);
        }
        self.0.as_str()
    }
}

/// Opaque provider item handle. Core never parses it.
#[derive(Debug, PartialEq, Eq, Hash, PartialOrd, Ord)]
pub struct ProviderItemId(String);

impl Clone for ProviderItemId {
    fn clone(&self) -> (r: Self)
        ensures
            r@ == self@,
    {
        proof {
            use_type_invariant(self);
        }
        ProviderItemId(self.0.clone())
    }
}

impl View for ProviderItemId {
    type V = Seq<char>;

    closed spec fn view(&self) -> Seq<char> {
        self.0@
    }
}

impl ProviderItemId {
    #[verifier::type_invariant]
    spec fn wf(&self) -> bool {
        self.0@.len() > 0 && spec_trim(self.0@) == self.0@
    }

    /// Parse a non-empty identifier.
    ///
    /// # Errors
    ///
    /// Empty after trimming.
    pub fn new(raw: &str) -> (r: Result<Self, InvalidId>)
        ensures
            r matches Ok(id) ==> spec_opaque_result(raw@) == Ok::<Seq<char>, Seq<char>>(id@),
            r matches Err(e) ==> spec_opaque_result(raw@) == Err::<Seq<char>, Seq<char>>(e.value@),
            r matches Err(e) ==> e.kind@ == "provider item id"@ && e.reason@ == "must be non-empty"@,
    {
        proof {
            crate::text::lemma_trim_shape(raw@);
        }
        match check_opaque(raw) {
            Ok(s) => Ok(ProviderItemId(s)),
            Err(value) => Err(InvalidId { kind: "provider item id", value, reason: "must be non-empty" }),
        }
    }

    /// Borrow the raw text.
    pub fn as_str(&self) -> (r: &str)
        ensures
            r@ == self@,
            r@.len() > 0,
            spec_trim(self@) == self@,
    {
        proof {
            use_type_invariant(self);
        }
        self.0.as_str()
    }
}

/// Tool-policy rule id.
#[derive(Debug, PartialEq, Eq, Hash, PartialOrd, Ord)]
pub struct PolicyId(String);

impl Clone for PolicyId {
    fn clone(&self) -> (r: Self)
        ensures
            r@ == self@,
    {
        proof {
            use_type_invariant(self);
        }
        PolicyId(self.0.clone())
    }
}

impl View for PolicyId {
    type V = Seq<char>;

    closed spec fn view(&self) -> Seq<char> {
        self.0@
    }
}

impl PolicyId {
    #[verifier::type_invariant]
    spec fn wf(&self) -> bool {
        self.0@.len() > 0 && spec_trim(self.0@) == self.0@
    }

    /// Parse a non-empty identifier.
    ///
    /// # Errors
    ///
    /// Empty after trimming.
    pub fn new(raw: &str) -> (r: Result<Self, InvalidId>)
        ensures
            r matches Ok(id) ==> spec_opaque_result(raw@) == Ok::<Seq<char>, Seq<char>>(id@),
            r matches Err(e) ==> spec_opaque_result(raw@) == Err::<Seq<char>, Seq<char>>(e.value@),
            r matches Err(e) ==> e.kind@ == "policy id"@ && e.reason@ == "must be non-empty"@,
    {
        proof {
            crate::text::lemma_trim_shape(raw@);
        }
        match check_opaque(raw) {
            Ok(s) => Ok(PolicyId(s)),
            Err(value) => Err(InvalidId { kind: "policy id", value, reason: "must be non-empty" }),
        }
    }

    /// Borrow the raw text.
    pub fn as_str(&self) -> (r: &str)
        ensures
            r@ == self@,
            r@.len() > 0,
            spec_trim(self@) == self@,
    {
        proof {
            use_type_invariant(self);
        }
        self.0.as_str()
    }
}

/// Isolation partition (org/workspace). Opaque to plugins.
#[derive(Debug, PartialEq, Eq, Hash, PartialOrd, Ord)]
pub struct Tenant(String);

impl Clone for Tenant {
    fn clone(&self) -> (r: Self)
        ensures
            r@ == self@,
    {
        proof {
            use_type_invariant(self);
        }
        Tenant(self.0.clone())
    }
}

impl View for Tenant {
    type V = Seq<char>;

    closed spec fn view(&self) -> Seq<char> {
        self.0@
    }
}

impl Tenant {
    #[verifier::type_invariant]
    spec fn wf(&self) -> bool {
        self.0@.len() > 0 && spec_trim(self.0@) == self.0@
    }

    /// Parse a non-empty identifier.
    ///
    /// # Errors
    ///
    /// Empty after trimming.
    pub fn new(raw: &str) -> (r: Result<Self, InvalidId>)
        ensures
            r matches Ok(id) ==> spec_opaque_result(raw@) == Ok::<Seq<char>, Seq<char>>(id@),
            r matches Err(e) ==> spec_opaque_result(raw@) == Err::<Seq<char>, Seq<char>>(e.value@),
            r matches Err(e) ==> e.kind@ == "tenant"@ && e.reason@ == "must be non-empty"@,
    {
        proof {
            crate::text::lemma_trim_shape(raw@);
        }
        match check_opaque(raw) {
            Ok(s) => Ok(Tenant(s)),
            Err(value) => Err(InvalidId { kind: "tenant", value, reason: "must be non-empty" }),
        }
    }

    /// Borrow the raw text.
    pub fn as_str(&self) -> (r: &str)
        ensures
            r@ == self@,
            r@.len() > 0,
            spec_trim(self@) == self@,
    {
        proof {
            use_type_invariant(self);
        }
        self.0.as_str()
    }
}

/// Acting member identity. Required for `Owner::User` writes.
#[derive(Debug, PartialEq, Eq, Hash, PartialOrd, Ord)]
pub struct Subject(String);

impl Clone for Subject {
    fn clone(&self) -> (r: Self)
        ensures
            r@ == self@,
    {
        proof {
            use_type_invariant(self);
        }
        Subject(self.0.clone())
    }
}

impl View for Subject {
    type V = Seq<char>;

    closed spec fn view(&self) -> Seq<char> {
        self.0@
    }
}

impl Subject {
    #[verifier::type_invariant]
    spec fn wf(&self) -> bool {
        self.0@.len() > 0 && spec_trim(self.0@) == self.0@
    }

    /// Parse a non-empty identifier.
    ///
    /// # Errors
    ///
    /// Empty after trimming.
    pub fn new(raw: &str) -> (r: Result<Self, InvalidId>)
        ensures
            r matches Ok(id) ==> spec_opaque_result(raw@) == Ok::<Seq<char>, Seq<char>>(id@),
            r matches Err(e) ==> spec_opaque_result(raw@) == Err::<Seq<char>, Seq<char>>(e.value@),
            r matches Err(e) ==> e.kind@ == "subject"@ && e.reason@ == "must be non-empty"@,
    {
        proof {
            crate::text::lemma_trim_shape(raw@);
        }
        match check_opaque(raw) {
            Ok(s) => Ok(Subject(s)),
            Err(value) => Err(InvalidId { kind: "subject", value, reason: "must be non-empty" }),
        }
    }

    /// Borrow the raw text.
    pub fn as_str(&self) -> (r: &str)
        ensures
            r@ == self@,
            r@.len() > 0,
            spec_trim(self@) == self@,
    {
        proof {
            use_type_invariant(self);
        }
        self.0.as_str()
    }
}

/// Registered OAuth app slug.
#[derive(Debug, PartialEq, Eq, Hash, PartialOrd, Ord)]
pub struct OAuthClientSlug(String);

impl Clone for OAuthClientSlug {
    fn clone(&self) -> (r: Self)
        ensures
            r@ == self@,
    {
        proof {
            use_type_invariant(self);
        }
        OAuthClientSlug(self.0.clone())
    }
}

impl View for OAuthClientSlug {
    type V = Seq<char>;

    closed spec fn view(&self) -> Seq<char> {
        self.0@
    }
}

impl OAuthClientSlug {
    #[verifier::type_invariant]
    spec fn wf(&self) -> bool {
        self.0@.len() > 0 && spec_trim(self.0@) == self.0@
    }

    /// Parse a non-empty identifier.
    ///
    /// # Errors
    ///
    /// Empty after trimming.
    pub fn new(raw: &str) -> (r: Result<Self, InvalidId>)
        ensures
            r matches Ok(id) ==> spec_opaque_result(raw@) == Ok::<Seq<char>, Seq<char>>(id@),
            r matches Err(e) ==> spec_opaque_result(raw@) == Err::<Seq<char>, Seq<char>>(e.value@),
            r matches Err(e) ==> e.kind@ == "oauth client slug"@ && e.reason@ == "must be non-empty"@,
    {
        proof {
            crate::text::lemma_trim_shape(raw@);
        }
        match check_opaque(raw) {
            Ok(s) => Ok(OAuthClientSlug(s)),
            Err(value) => Err(InvalidId { kind: "oauth client slug", value, reason: "must be non-empty" }),
        }
    }

    /// Borrow the raw text.
    pub fn as_str(&self) -> (r: &str)
        ensures
            r@ == self@,
            r@.len() > 0,
            spec_trim(self@) == self@,
    {
        proof {
            use_type_invariant(self);
        }
        self.0.as_str()
    }
}

/// URL elicitation correlation id.
#[derive(Debug, PartialEq, Eq, Hash, PartialOrd, Ord)]
pub struct ElicitationId(String);

impl Clone for ElicitationId {
    fn clone(&self) -> (r: Self)
        ensures
            r@ == self@,
    {
        proof {
            use_type_invariant(self);
        }
        ElicitationId(self.0.clone())
    }
}

impl View for ElicitationId {
    type V = Seq<char>;

    closed spec fn view(&self) -> Seq<char> {
        self.0@
    }
}

impl ElicitationId {
    #[verifier::type_invariant]
    spec fn wf(&self) -> bool {
        self.0@.len() > 0 && spec_trim(self.0@) == self.0@
    }

    /// Parse a non-empty identifier.
    ///
    /// # Errors
    ///
    /// Empty after trimming.
    pub fn new(raw: &str) -> (r: Result<Self, InvalidId>)
        ensures
            r matches Ok(id) ==> spec_opaque_result(raw@) == Ok::<Seq<char>, Seq<char>>(id@),
            r matches Err(e) ==> spec_opaque_result(raw@) == Err::<Seq<char>, Seq<char>>(e.value@),
            r matches Err(e) ==> e.kind@ == "elicitation id"@ && e.reason@ == "must be non-empty"@,
    {
        proof {
            crate::text::lemma_trim_shape(raw@);
        }
        match check_opaque(raw) {
            Ok(s) => Ok(ElicitationId(s)),
            Err(value) => Err(InvalidId { kind: "elicitation id", value, reason: "must be non-empty" }),
        }
    }

    /// Borrow the raw text.
    pub fn as_str(&self) -> (r: &str)
        ensures
            r@ == self@,
            r@.len() > 0,
            spec_trim(self@) == self@,
    {
        proof {
            use_type_invariant(self);
        }
        self.0.as_str()
    }
}

/// Generative-UI artifact id (kept for address compatibility).
#[derive(Debug, PartialEq, Eq, Hash, PartialOrd, Ord)]
pub struct ArtifactId(String);

impl Clone for ArtifactId {
    fn clone(&self) -> (r: Self)
        ensures
            r@ == self@,
    {
        proof {
            use_type_invariant(self);
        }
        ArtifactId(self.0.clone())
    }
}

impl View for ArtifactId {
    type V = Seq<char>;

    closed spec fn view(&self) -> Seq<char> {
        self.0@
    }
}

impl ArtifactId {
    #[verifier::type_invariant]
    spec fn wf(&self) -> bool {
        self.0@.len() > 0 && spec_trim(self.0@) == self.0@
    }

    /// Parse a non-empty identifier.
    ///
    /// # Errors
    ///
    /// Empty after trimming.
    pub fn new(raw: &str) -> (r: Result<Self, InvalidId>)
        ensures
            r matches Ok(id) ==> spec_opaque_result(raw@) == Ok::<Seq<char>, Seq<char>>(id@),
            r matches Err(e) ==> spec_opaque_result(raw@) == Err::<Seq<char>, Seq<char>>(e.value@),
            r matches Err(e) ==> e.kind@ == "artifact id"@ && e.reason@ == "must be non-empty"@,
    {
        proof {
            crate::text::lemma_trim_shape(raw@);
        }
        match check_opaque(raw) {
            Ok(s) => Ok(ArtifactId(s)),
            Err(value) => Err(InvalidId { kind: "artifact id", value, reason: "must be non-empty" }),
        }
    }

    /// Borrow the raw text.
    pub fn as_str(&self) -> (r: &str)
        ensures
            r@ == self@,
            r@.len() > 0,
            spec_trim(self@) == self@,
    {
        proof {
            use_type_invariant(self);
        }
        self.0.as_str()
    }
}

impl PluginId {
    /// First-party `openapi` plugin.
    pub fn openapi() -> (r: Self)
        ensures
            r@ == "openapi"@,
    {
        proof {
            reveal_strlit("openapi");
            crate::text::lemma_trim_noop("openapi"@);
        }
        PluginId(copy_str("openapi"))
    }

    /// First-party `graphql` plugin.
    pub fn graphql() -> (r: Self)
        ensures
            r@ == "graphql"@,
    {
        proof {
            reveal_strlit("graphql");
            crate::text::lemma_trim_noop("graphql"@);
        }
        PluginId(copy_str("graphql"))
    }

    /// First-party `mcp` client plugin.
    pub fn mcp() -> (r: Self)
        ensures
            r@ == "mcp"@,
    {
        proof {
            reveal_strlit("mcp");
            crate::text::lemma_trim_noop("mcp"@);
        }
        PluginId(copy_str("mcp"))
    }

    /// Built-in core-tools plugin.
    pub fn core_tools() -> (r: Self)
        ensures
            r@ == "core-tools"@,
    {
        proof {
            reveal_strlit("core-tools");
            crate::text::lemma_trim_noop("core-tools"@);
        }
        PluginId(copy_str("core-tools"))
    }
}

impl ProviderKey {
    /// Default writable store (sqlite or memory).
    pub fn default_store() -> (r: Self)
        ensures
            r@ == "default"@,
    {
        proof {
            reveal_strlit("default");
            crate::text::lemma_trim_noop("default"@);
        }
        ProviderKey(copy_str("default"))
    }

    /// Process environment.
    pub fn env() -> (r: Self)
        ensures
            r@ == "env"@,
    {
        proof {
            reveal_strlit("env");
            crate::text::lemma_trim_noop("env"@);
        }
        ProviderKey(copy_str("env"))
    }

    /// File path provider.
    pub fn file() -> (r: Self)
        ensures
            r@ == "file"@,
    {
        proof {
            reveal_strlit("file");
            crate::text::lemma_trim_noop("file"@);
        }
        ProviderKey(copy_str("file"))
    }

    /// 1Password CLI (`op read`).
    pub fn one_password() -> (r: Self)
        ensures
            r@ == "1password"@,
    {
        proof {
            reveal_strlit("1password");
            crate::text::lemma_trim_noop("1password"@);
        }
        ProviderKey(copy_str("1password"))
    }

    /// OS keychain / `secret-tool`.
    pub fn keychain() -> (r: Self)
        ensures
            r@ == "keychain"@,
    {
        proof {
            reveal_strlit("keychain");
            crate::text::lemma_trim_noop("keychain"@);
        }
        ProviderKey(copy_str("keychain"))
    }

    /// `WorkOS` Vault HTTP.
    pub fn workos_vault() -> (r: Self)
        ensures
            r@ == "workos_vault"@,
    {
        proof {
            reveal_strlit("workos_vault");
            crate::text::lemma_trim_noop("workos_vault"@);
        }
        ProviderKey(copy_str("workos_vault"))
    }
}

} // verus!
