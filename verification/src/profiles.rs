//! Named remote server profiles: the store kept in `server-connections.json` and the
//! operations on it. Reading and writing the file is the caller's part; these functions take
//! the loaded store and give back the one to save.

use vstd::prelude::*;
use crate::text::{
    copy_str, from_char_range, is_ascii_alnum, lex_lt, lex_order_str, push_str, spec_is_ascii_alnum,
    spec_trim, str_eq, to_chars, trim_vec,
};

verus! {

/// Where the profile store lives under the data directory, joined as a path joins a file
/// name: `server-connections.json` after the directory and a `/` unless it ends in one.
pub open spec fn spec_store_path(data_dir: Seq<char>) -> Seq<char> {
    if data_dir.len() == 0 || data_dir.last() == '/' {
        data_dir + "server-connections.json"@
    } else {
        data_dir + "/server-connections.json"@
    }
}

/// The profile store's file under `data_dir`.
pub fn store_path(data_dir: &str) -> (r: String)
    ensures
        r@ == spec_store_path(data_dir@),
{
    let v = to_chars(data_dir);
    let mut s = copy_str(data_dir);
    if v.len() == 0 || v[v.len() - 1] == '/' {
        push_str(&mut s, "server-connections.json");
    } else {
        push_str(&mut s, "/server-connections.json");
    }
    s
}

/// Stored credential.
#[derive(Clone, Debug, PartialEq, Eq)]
pub enum Auth {
    /// Static bearer.
    Bearer {
        /// Token.
        token: String,
    },
    /// Device-login OAuth.
    Oauth {
        /// Access token.
        access_token: String,
        /// Refresh token.
        refresh_token: Option<String>,
        /// Email for `whoami`.
        email: Option<String>,
    },
}

/// HTTP origin + optional auth.
#[derive(Clone, Debug, PartialEq, Eq)]
pub struct Connection {
    /// Origin URL.
    pub origin: String,
    /// Auth block.
    pub auth: Option<Auth>,
}

/// One saved connection profile.
#[derive(Clone, Debug, PartialEq, Eq)]
pub struct Profile {
    /// Profile name.
    pub name: String,
    /// Connection.
    pub connection: Connection,
}

/// A profile as plain values: name, origin, auth.
pub type ProfileView = (Seq<char>, Seq<char>, Option<Auth>);

impl View for Profile {
    type V = ProfileView;

    open spec fn view(&self) -> ProfileView {
        (self.name@, self.connection.origin@, self.connection.auth)
    }
}

/// Versioned on-disk store.
#[derive(Clone, Debug, PartialEq, Eq)]
pub struct Store {
    /// Schema version.
    pub version: u32,
    /// Default profile name.
    pub default_profile: Option<String>,
    /// Profiles.
    pub profiles: Vec<Profile>,
}

impl Default for Store {
    fn default() -> (r: Self)
        ensures
            r.version == 1,
            r.default_profile is None,
            r.profiles@.len() == 0,
    {
        Store { version: 1, default_profile: None, profiles: Vec::new() }
    }
}

/// The message for an unusable profile name.
pub const NAME_RULE: &'static str =
    "Server profile names may contain only letters, numbers, dots, underscores, and dashes.";

/// A character allowed in a profile name.
pub open spec fn is_name_char(c: char) -> bool {
    spec_is_ascii_alnum(c) || c == '.' || c == '_' || c == '-'
}

/// The name `name` stands for: trimmed, non-empty, of allowed characters only.
pub open spec fn spec_valid_name(name: Seq<char>) -> Option<Seq<char>> {
    let t = spec_trim(name);
    if t.len() > 0 && forall|i: int| 0 <= i < t.len() ==> is_name_char(#[trigger] t[i]) {
        Some(t)
    } else {
        None
    }
}

/// Validate a profile name: the trimmed name, or the naming rule as the error.
pub fn validate_name(name: &str) -> (r: Result<String, String>)
    ensures
        match spec_valid_name(name@) {
            Some(t) => r matches Ok(n) && n@ == t,
            None => r matches Err(e) && e@ == NAME_RULE@,
        },
{
    let v = to_chars(name);
    let t = trim_vec(&v);
    let mut ok = t.len() > 0;
    let mut k: usize = 0;
    while k < t.len()
        invariant
            k <= t@.len(),
            ok == (t@.len() > 0 && forall|i: int| 0 <= i < k ==> is_name_char(#[trigger] t@[i])),
        decreases t.len() - k,
    {
        let c = t[k];
        if !(is_ascii_alnum(c) || c == '.' || c == '_' || c == '-') {
            ok = false;
        }
        k += 1;
    }
    if ok {
        Ok(from_char_range(&t, 0, t.len()))
    } else {
        Err(copy_str(NAME_RULE))
    }
}

// ---------------------------------------------------------------- store operations

/// The views of a list of profiles.
pub open spec fn pviews(ps: Seq<Profile>) -> Seq<ProfileView> {
    ps.map_values(|p: Profile| p@)
}

/// The profiles not named `n`, in order.
pub open spec fn without(ps: Seq<ProfileView>, n: Seq<char>) -> Seq<ProfileView>
    decreases ps.len(),
{
    if ps.len() == 0 {
        Seq::empty()
    } else if ps.last().0 == n {
        without(ps.drop_last(), n)
    } else {
        without(ps.drop_last(), n).push(ps.last())
    }
}

/// `p` inserted into name-sorted `s` after every profile whose name is not greater.
pub open spec fn insert_by_name(s: Seq<ProfileView>, p: ProfileView) -> Seq<ProfileView>
    decreases s.len(),
{
    if s.len() == 0 {
        seq![p]
    } else if lex_lt(p.0, s.last().0) {
        insert_by_name(s.drop_last(), p).push(s.last())
    } else {
        s.push(p)
    }
}

/// The stable sort of `s` by name.
pub open spec fn sort_by_name(s: Seq<ProfileView>) -> Seq<ProfileView>
    decreases s.len(),
{
    if s.len() == 0 {
        Seq::empty()
    } else {
        insert_by_name(sort_by_name(s.drop_last()), s.last())
    }
}

/// `origin` without trailing `/`.
pub open spec fn trim_slashes(s: Seq<char>) -> Seq<char>
    decreases s.len(),
{
    if s.len() > 0 && s.last() == '/' {
        trim_slashes(s.drop_last())
    } else {
        s
    }
}

/// An optional string as plain characters.
pub open spec fn opt_text(o: Option<String>) -> Option<Seq<char>> {
    match o {
        Some(s) => Some(s@),
        None => None,
    }
}

/// Index of the first profile named `n`, looking from `k` on.
pub open spec fn find_named(ps: Seq<ProfileView>, n: Seq<char>, k: int) -> Option<int>
    decreases ps.len() - k,
{
    if k < 0 || k >= ps.len() {
        None
    } else if ps[k].0 == n {
        Some(k)
    } else {
        find_named(ps, n, k + 1)
    }
}

/// The active profile: the default one when it exists, else the first.
pub open spec fn spec_active(default_profile: Option<Seq<char>>, ps: Seq<ProfileView>) -> Option<int> {
    let first = if ps.len() > 0 {
        Some(0int)
    } else {
        None
    };
    match default_profile {
        Some(n) => match find_named(ps, n, 0) {
            Some(i) => Some(i),
            None => first,
        },
        None => first,
    }
}

fn without_exec(ps: Vec<Profile>, n: &str) -> (r: Vec<Profile>)
    ensures
        pviews(r@) == without(pviews(ps@), n@),
{
    let mut out: Vec<Profile> = Vec::new();
    let mut rest = ps;
    let ghost all = pviews(rest@);
    let mut k: usize = 0;
    let total = rest.len();
    assert(all.skip(0) =~= all);
    assert(all.take(0) =~= Seq::<ProfileView>::empty());
    while rest.len() > 0
        invariant
            all.len() == total,
            all.len() == k + rest@.len(),
            pviews(rest@) == all.skip(k as int),
            pviews(out@) == without(all.take(k as int), n@),
        decreases rest.len(),
    {
        let ghost before = rest@;
        let p = rest.remove(0);
        proof {
            assert(all.skip(k as int)[0] == pviews(before)[0]);
            assert(all[k as int] == p@);
            assert(all.take(k + 1).drop_last() =~= all.take(k as int));
            assert(all.take(k + 1).last() == p@);
            assert forall|i: int| 0 <= i < rest@.len() implies #[trigger] pviews(rest@)[i]
                == all.skip(k + 1)[i] by {
                assert(rest@[i] == before[i + 1]);
                assert(pviews(before)[i + 1] == all.skip(k as int)[i + 1]);
            }
            assert(pviews(rest@) =~= all.skip(k + 1));
        }
        if !str_eq(p.name.as_str(), n) {
            let ghost prev = pviews(out@);
            out.push(p);
            assert(pviews(out@) =~= prev.push(all[k as int]));
        }
        k += 1;
    }
    assert(all.take(k as int) =~= all);
    out
}

fn insert_by_name_exec(out: &mut Vec<Profile>, p: Profile)
    ensures
        pviews(final(out)@) == insert_by_name(pviews(old(out)@), p@),
{
    let mut j = out.len();
    while j > 0 && lex_order_str(p.name.as_str(), out[j - 1].name.as_str()) == -1
        invariant
            j <= out@.len(),
            out@ == old(out)@,
            forall|k: int| j <= k < out@.len() ==> lex_lt(p@.0, #[trigger] out@[k]@.0),
        decreases j,
    {
        j -= 1;
    }
    proof {
        let s = pviews(out@);
        assert forall|k: int| j <= k < s.len() implies lex_lt(p@.0, #[trigger] s[k].0) by {
            assert(s[k] == out@[k]@);
        }
        if j > 0 {
            assert(s[j - 1] == out@[j - 1]@);
        }
        lemma_insert_by_name_at(s, p@, j as int);
    }
    let ghost before = out@;
    out.insert(j, p);
    assert(pviews(out@) =~= pviews(before).insert(j as int, p@));
}

/// Insertion at the position the scan from the right finds.
proof fn lemma_insert_by_name_at(s: Seq<ProfileView>, p: ProfileView, j: int)
    requires
        0 <= j <= s.len(),
        forall|k: int| j <= k < s.len() ==> lex_lt(p.0, #[trigger] s[k].0),
        j > 0 ==> !lex_lt(p.0, s[j - 1].0),
    ensures
        insert_by_name(s, p) == s.insert(j, p),
    decreases s.len(),
{
    if s.len() == 0 {
        assert(s.insert(j, p) =~= seq![p]);
    } else if j == s.len() {
        assert(s.insert(j, p) =~= s.push(p));
    } else {
        assert(lex_lt(p.0, s.last().0));
        lemma_insert_by_name_at(s.drop_last(), p, j);
        assert(s.drop_last().insert(j, p).push(s.last()) =~= s.insert(j, p));
    }
}

fn sort_profiles(ps: Vec<Profile>) -> (r: Vec<Profile>)
    ensures
        pviews(r@) == sort_by_name(pviews(ps@)),
{
    let mut out: Vec<Profile> = Vec::new();
    let mut rest = ps;
    let ghost all = pviews(rest@);
    let mut k: usize = 0;
    let total = rest.len();
    assert(all.skip(0) =~= all);
    assert(all.take(0) =~= Seq::<ProfileView>::empty());
    while rest.len() > 0
        invariant
            all.len() == total,
            all.len() == k + rest@.len(),
            pviews(rest@) == all.skip(k as int),
            pviews(out@) == sort_by_name(all.take(k as int)),
        decreases rest.len(),
    {
        let ghost before = rest@;
        let p = rest.remove(0);
        proof {
            assert(all.skip(k as int)[0] == pviews(before)[0]);
            assert(all[k as int] == p@);
            assert(all.take(k + 1).drop_last() =~= all.take(k as int));
            assert(all.take(k + 1).last() == p@);
            assert forall|i: int| 0 <= i < rest@.len() implies #[trigger] pviews(rest@)[i]
                == all.skip(k + 1)[i] by {
                assert(rest@[i] == before[i + 1]);
                assert(pviews(before)[i + 1] == all.skip(k as int)[i + 1]);
            }
            assert(pviews(rest@) =~= all.skip(k + 1));
        }
        insert_by_name_exec(&mut out, p);
        k += 1;
    }
    assert(all.take(k as int) =~= all);
    out
}

fn trim_trailing_slashes(s: &str) -> (r: String)
    ensures
        r@ == trim_slashes(s@),
{
    let v = to_chars(s);
    let mut n = v.len();
    assert(v@.take(v@.len() as int) =~= v@);
    while n > 0 && v[n - 1] == '/'
        invariant
            n <= v@.len(),
            v@ == s@,
            trim_slashes(v@.take(n as int)) == trim_slashes(s@),
        decreases n,
    {
        assert(v@.take(n as int).drop_last() =~= v@.take(n - 1));
        n -= 1;
    }
    assert(v@.take(v@.len() as int) =~= v@);
    let r = from_char_range(&v, 0, n);
    assert(r@ =~= v@.take(n as int));
    r
}

/// Add or replace profile `name`: the store with the profile (origin without trailing `/`)
/// in place of any of that name, profiles sorted by name, and the profile made the default
/// when asked or when there was none.
pub fn upsert(store: Store, name: &str, origin: &str, auth: Option<Auth>, make_default: bool) -> (r:
    Result<Store, String>)
    ensures
        match spec_valid_name(name@) {
            None => r matches Err(e) && e@ == NAME_RULE@,
            Some(n) => r matches Ok(s) && {
                &&& s.version == store.version
                &&& pviews(s.profiles@) == sort_by_name(
                    without(pviews(store.profiles@), n).push((n, trim_slashes(origin@), auth)),
                )
                &&& opt_text(s.default_profile) == if make_default || store.default_profile is None {
                    Some(n)
                } else {
                    opt_text(store.default_profile)
                }
            },
        },
{
    let name = match validate_name(name) {
        Ok(n) => n,
        Err(e) => return Err(e),
    };
    let Store { version, default_profile, profiles } = store;
    let mut kept = without_exec(profiles, name.as_str());
    let profile = Profile {
        name: copy_str(name.as_str()),
        connection: Connection { origin: trim_trailing_slashes(origin), auth },
    };
    let ghost before = pviews(kept@);
    kept.push(profile);
    assert(pviews(kept@) =~= before.push(profile@));
    let sorted = sort_profiles(kept);
    let default_profile = if make_default || default_profile.is_none() {
        Some(name)
    } else {
        default_profile
    };
    Ok(Store { version, default_profile, profiles: sorted })
}

/// Make `name` the default profile; it must exist.
pub fn set_default(store: Store, name: &str) -> (r: Result<Store, String>)
    ensures
        match spec_valid_name(name@) {
            None => r matches Err(e) && e@ == NAME_RULE@,
            Some(n) => if find_named(pviews(store.profiles@), n, 0) is None {
                r matches Err(e) && e@ == "No server profile named \""@ + n + "\"."@
            } else {
                r matches Ok(s) && s.version == store.version && s.profiles@ == store.profiles@
                    && opt_text(s.default_profile) == Some(n)
            },
        },
{
    let name = match validate_name(name) {
        Ok(n) => n,
        Err(e) => return Err(e),
    };
    match find_profile(&store.profiles, name.as_str()) {
        None => {
            let mut msg = copy_str("No server profile named \"");
            push_str(&mut msg, name.as_str());
            push_str(&mut msg, "\".");
            Err(msg)
        },
        Some(_) => {
            let Store { version, default_profile: _, profiles } = store;
            Ok(Store { version, default_profile: Some(name), profiles })
        },
    }
}

/// Remove profile `name`; the default is cleared when it was that profile.
pub fn remove(store: Store, name: &str) -> (r: Result<Store, String>)
    ensures
        match spec_valid_name(name@) {
            None => r matches Err(e) && e@ == NAME_RULE@,
            Some(n) => r matches Ok(s) && {
                &&& s.version == store.version
                &&& pviews(s.profiles@) == without(pviews(store.profiles@), n)
                &&& opt_text(s.default_profile) == if opt_text(store.default_profile) == Some(n) {
                    None
                } else {
                    opt_text(store.default_profile)
                }
            },
        },
{
    let name = match validate_name(name) {
        Ok(n) => n,
        Err(e) => return Err(e),
    };
    let Store { version, default_profile, profiles } = store;
    let kept = without_exec(profiles, name.as_str());
    let default_profile = match default_profile {
        Some(d) => if str_eq(d.as_str(), name.as_str()) {
            None
        } else {
            Some(d)
        },
        None => None,
    };
    Ok(Store { version, default_profile, profiles: kept })
}

/// Index of the first profile named `n`.
fn find_profile(ps: &Vec<Profile>, n: &str) -> (r: Option<usize>)
    ensures
        match r {
            Some(i) => find_named(pviews(ps@), n@, 0) == Some(i as int),
            None => find_named(pviews(ps@), n@, 0) is None,
        },
{
    let ghost pv = pviews(ps@);
    let mut k: usize = 0;
    while k < ps.len()
        invariant
            pv == pviews(ps@),
            k <= pv.len(),
            find_named(pv, n@, 0) == find_named(pv, n@, k as int),
        decreases ps.len() - k,
    {
        assert(pv[k as int] == ps@[k as int]@);
        if str_eq(ps[k].name.as_str(), n) {
            return Some(k);
        }
        k += 1;
    }
    None
}

/// `find_named` names a profile of that name at or after `k`.
proof fn lemma_find_named_bounds(ps: Seq<ProfileView>, n: Seq<char>, k: int)
    ensures
        find_named(ps, n, k) matches Some(i) ==> k <= i < ps.len() && ps[i].0 == n,
    decreases ps.len() - k,
{
    if 0 <= k < ps.len() && ps[k].0 != n {
        lemma_find_named_bounds(ps, n, k + 1);
    }
}

/// Active profile (default, else first).
pub fn active(store: &Store) -> (r: Option<&Profile>)
    ensures
        match spec_active(opt_text(store.default_profile), pviews(store.profiles@)) {
            Some(i) => r matches Some(p) && *p == store.profiles@[i],
            None => r is None,
        },
{
    let found = match &store.default_profile {
        Some(n) => find_profile(&store.profiles, n.as_str()),
        None => None,
    };
    proof {
        match opt_text(store.default_profile) {
            Some(n) => lemma_find_named_bounds(pviews(store.profiles@), n, 0),
            None => {},
        }
    }
    match found {
        Some(i) => Some(&store.profiles[i]),
        None => {
            if store.profiles.len() > 0 {
                Some(&store.profiles[0])
            } else {
                None
            }
        },
    }
}

// ---------------------------------------------------------------- what the commands print

/// What `whoami` prints for a profile's credential: the OAuth email, or the kind.
pub open spec fn spec_identity(auth: Option<Auth>) -> Seq<char> {
    match auth {
        Some(Auth::Oauth { email, .. }) => match email {
            Some(e) => e@,
            None => "(oauth)"@,
        },
        Some(Auth::Bearer { .. }) => "(bearer)"@,
        None => "(anonymous)"@,
    }
}

/// The identity `whoami` prints for `auth`.
pub fn identity(auth: &Option<Auth>) -> (r: String)
    ensures
        r@ == spec_identity(*auth),
{
    match auth {
        Some(Auth::Oauth { email, .. }) => match email {
            Some(e) => copy_str(e.as_str()),
            None => copy_str("(oauth)"),
        },
        Some(Auth::Bearer { .. }) => copy_str("(bearer)"),
        None => copy_str("(anonymous)"),
    }
}

/// The profile `whoami` reports: the one named `server`, else the active one.
pub fn whoami_profile<'a>(store: &'a Store, server: Option<&str>) -> (r: Result<&'a Profile, String>)
    ensures
        match server {
            Some(n) => match find_named(pviews(store.profiles@), n@, 0) {
                Some(i) => (r matches Ok(p) && *p == store.profiles@[i]),
                None => (r matches Err(e) && e@ == "No server profile named \""@ + n@ + "\"."@),
            },
            None => match spec_active(opt_text(store.default_profile), pviews(store.profiles@)) {
                Some(i) => (r matches Ok(p) && *p == store.profiles@[i]),
                None => (r matches Err(e) && e@ == "no server profile; run executor login"@),
            },
        },
{
    match server {
        Some(n) => match find_profile(&store.profiles, n) {
            Some(i) => {
                proof {
                    lemma_find_named_bounds(pviews(store.profiles@), n@, 0);
                }
                Ok(&store.profiles[i])
            },
            None => {
                let mut msg = copy_str("No server profile named \"");
                push_str(&mut msg, n);
                push_str(&mut msg, "\".");
                Err(msg)
            },
        },
        None => match active(store) {
            Some(p) => Ok(p),
            None => Err(copy_str("no server profile; run executor login")),
        },
    }
}

/// The line `whoami` prints: name, origin and identity, tab-separated.
pub fn whoami_line(p: &Profile) -> (r: String)
    ensures
        r@ == p.name@ + "\t"@ + p.connection.origin@ + "\t"@ + spec_identity(p.connection.auth),
{
    let mut s = copy_str(p.name.as_str());
    push_str(&mut s, "\t");
    push_str(&mut s, p.connection.origin.as_str());
    push_str(&mut s, "\t");
    let id = identity(&p.connection.auth);
    push_str(&mut s, id.as_str());
    s
}

/// One `server list` row: `*` on the default profile, then name and origin.
pub open spec fn profile_line(default_profile: Option<Seq<char>>, p: ProfileView) -> Seq<char> {
    (if default_profile == Some(p.0) {
        "*"@
    } else {
        " "@
    }) + " "@ + p.0 + "\t"@ + p.1
}

/// The texts of printed lines.
pub open spec fn line_texts(v: Seq<String>) -> Seq<Seq<char>> {
    v.map_values(|s: String| s@)
}

/// The lines `server list` prints: one row per profile, or a note when there are none.
pub fn profile_lines(store: &Store) -> (r: Vec<String>)
    ensures
        store.profiles@.len() == 0 ==> line_texts(r@) == seq!["(no server profiles)"@],
        store.profiles@.len() > 0 ==> line_texts(r@) == pviews(store.profiles@).map_values(
            |p: ProfileView| profile_line(opt_text(store.default_profile), p),
        ),
{
    let mut out: Vec<String> = Vec::new();
    if store.profiles.len() == 0 {
        out.push(copy_str("(no server profiles)"));
        assert(line_texts(out@) =~= seq!["(no server profiles)"@]);
        return out;
    }
    let ghost d = opt_text(store.default_profile);
    let mut k: usize = 0;
    while k < store.profiles.len()
        invariant
            k <= store.profiles@.len(),
            d == opt_text(store.default_profile),
            line_texts(out@) == pviews(store.profiles@).take(k as int).map_values(
                |p: ProfileView| profile_line(d, p),
            ),
        decreases store.profiles.len() - k,
    {
        let p = &store.profiles[k];
        let is_default = match &store.default_profile {
            Some(n) => str_eq(n.as_str(), p.name.as_str()),
            None => false,
        };
        let mut s = if is_default {
            copy_str("*")
        } else {
            copy_str(" ")
        };
        push_str(&mut s, " ");
        push_str(&mut s, p.name.as_str());
        push_str(&mut s, "\t");
        push_str(&mut s, p.connection.origin.as_str());
        let ghost before = line_texts(out@);
        assert(s@ == profile_line(d, p@));
        out.push(s);
        proof {
            assert(line_texts(out@) =~= before.push(profile_line(d, p@)));
            assert(pviews(store.profiles@).take(k + 1).map_values(|q: ProfileView| profile_line(d, q))
                =~= pviews(store.profiles@).take(k as int).map_values(|q: ProfileView| profile_line(d, q)).push(
                profile_line(d, pviews(store.profiles@)[k as int]),
            ));
        }
        k += 1;
    }
    assert(pviews(store.profiles@).take(store.profiles@.len() as int) =~= pviews(store.profiles@));
    out
}

} // verus!
