use vstd::prelude::*;
use vstd::utf8::{decode_utf8, valid_utf8};
use crate::json::{Json, JV, members_from, pairs_view, lemma_json_view};
use crate::text::{
    concat, contains_str, join, join_spec, split, split_spec, str_eq, trim, trim_spec, views,
};
use crate::github::{member_str, member_str_or, str_or};

verus! {

broadcast use lemma_json_view;

/// What goes wrong while signing in; each variant holds the message of its cause.
pub enum AuthError {
    /// The `gh` CLI is missing or has no session.
    GhCli(String),
    /// The system keychain failed.
    Keyring(String),
    /// The network failed.
    Network(String),
    /// The device flow failed.
    Device(String),
}

impl AuthError {
    /// The message shown for the error.
    pub fn message(&self) -> (m: String)
        ensures
            m@ == match self {
                AuthError::GhCli(s) => "gh CLI no disponible o sin sesión: "@ + s@,
                AuthError::Keyring(s) => "keychain: "@ + s@,
                AuthError::Network(s) => "red: "@ + s@,
                AuthError::Device(s) => "device flow: "@ + s@,
            },
    {
        match self {
            AuthError::GhCli(s) => concat("gh CLI no disponible o sin sesión: ", s.as_str()),
            AuthError::Keyring(s) => concat("keychain: ", s.as_str()),
            AuthError::Network(s) => concat("red: ", s.as_str()),
            AuthError::Device(s) => concat("device flow: ", s.as_str()),
        }
    }
}

/// What `String::from_utf8_lossy` makes of `bytes`.
pub uninterp spec fn utf8_lossy(bytes: Seq<u8>) -> Seq<char>;

/// Calls `String::from_utf8_lossy`, which decodes `bytes` as UTF-8 and puts U+FFFD in place of
/// each invalid sequence. The contract names the result and states only that valid UTF-8
/// decodes to its characters; what the replacement does is left unsaid.
#[verifier::external_body]
fn decode_lossy(bytes: &[u8]) -> (s: String)
    ensures
        s@ == utf8_lossy(bytes@),
        valid_utf8(bytes@) ==> s@ == decode_utf8(bytes@),
{
    String::from_utf8_lossy(bytes).into_owned()
}

/// Where the `gh` CLI is looked for before the user's own `PATH`.
pub open spec fn common_paths() -> Seq<Seq<char>> {
    seq!["/opt/homebrew/bin"@, "/usr/local/bin"@, "/opt/local/bin"@, "/usr/bin"@, "/bin"@]
}

/// The non-empty entries, each once, in the order of first appearance.
pub open spec fn dedup_nonempty(ps: Seq<Seq<char>>) -> Seq<Seq<char>>
    decreases ps.len(),
{
    if ps.len() == 0 {
        Seq::empty()
    } else {
        let r = dedup_nonempty(ps.drop_last());
        if ps.last().len() > 0 && !r.contains(ps.last()) {
            r.push(ps.last())
        } else {
            r
        }
    }
}

/// The `PATH` made of the usual binary directories followed by those of `base`.
pub open spec fn merge_paths_spec(base: Seq<char>) -> Seq<char> {
    join_spec(dedup_nonempty(common_paths() + split_spec(base, ':')), ":"@)
}

/// Joins the usual binary directories and those of the `PATH` `base`, without duplicates or
/// empty entries.
pub fn merge_paths(base: &str) -> (p: String)
    ensures
        p@ == merge_paths_spec(base@),
{
    let mut candidates: Vec<String> = Vec::new();
    candidates.push("/opt/homebrew/bin".to_owned());
    candidates.push("/usr/local/bin".to_owned());
    candidates.push("/opt/local/bin".to_owned());
    candidates.push("/usr/bin".to_owned());
    candidates.push("/bin".to_owned());
    let mut rest = split(base, ':');
    let ghost common = views(candidates@);
    assert(common =~= common_paths());
    let ghost rest0 = views(rest@);
    candidates.append(&mut rest);
    let ghost all = views(candidates@);
    assert(all =~= common_paths() + split_spec(base@, ':'));
    let mut parts: Vec<String> = Vec::new();
    let n = candidates.len();
    let mut i: usize = 0;
    assert(all.take(0) =~= Seq::<Seq<char>>::empty());
    while i < n
        invariant
            i <= n,
            n == candidates@.len(),
            all == views(candidates@),
            views(parts@) == dedup_nonempty(all.take(i as int)),
        decreases n - i,
    {
        assert(all.take(i + 1).drop_last() =~= all.take(i as int));
        assert(all.take(i + 1).last() == candidates@[i as int]@);
        let p = &candidates[i];
        if p.unicode_len() > 0 && !contains_str(&parts, p.as_str()) {
            let ghost before = parts@;
            parts.push(p.clone());
            assert(views(parts@) =~= views(before).push(p@));
        }
        i = i + 1;
    }
    assert(all.take(n as int) =~= all);
    join(&parts, ":")
}

/// Every entry of `dedup_nonempty(ps)` is non-empty and there only once, and every non-empty
/// entry of `ps` is among them.
pub proof fn law_merged_paths_unique(ps: Seq<Seq<char>>)
    ensures
        forall|i: int|
            0 <= i < dedup_nonempty(ps).len() ==> (#[trigger] dedup_nonempty(ps)[i]).len() > 0,
        forall|i: int, j: int|
            0 <= i < j < dedup_nonempty(ps).len() ==> dedup_nonempty(ps)[i] != dedup_nonempty(
                ps,
            )[j],
        forall|i: int|
            0 <= i < ps.len() && (#[trigger] ps[i]).len() > 0 ==> dedup_nonempty(ps).contains(
                ps[i],
            ),
    decreases ps.len(),
{
    if ps.len() > 0 {
        let r = dedup_nonempty(ps.drop_last());
        law_merged_paths_unique(ps.drop_last());
        assert forall|i: int| 0 <= i < ps.len() && (#[trigger] ps[i]).len() > 0 implies dedup_nonempty(
            ps,
        ).contains(ps[i]) by {
            if i < ps.len() - 1 {
                assert(ps.drop_last()[i] == ps[i]);
                let k = choose|k: int| 0 <= k < r.len() && r[k] == ps[i];
                if ps.last().len() > 0 && !r.contains(ps.last()) {
                    assert(r.push(ps.last())[k] == ps[i]);
                }
            } else if !r.contains(ps.last()) {
                assert(r.push(ps.last())[r.len() as int] == ps.last());
            }
        }
    }
}

/// `dedup_nonempty` continued from the entries `r` already kept.
pub open spec fn dedup_from(r: Seq<Seq<char>>, ps: Seq<Seq<char>>) -> Seq<Seq<char>>
    decreases ps.len(),
{
    if ps.len() == 0 {
        r
    } else {
        let k = dedup_from(r, ps.drop_last());
        if ps.last().len() > 0 && !k.contains(ps.last()) {
            k.push(ps.last())
        } else {
            k
        }
    }
}

proof fn lemma_dedup_concat(a: Seq<Seq<char>>, b: Seq<Seq<char>>)
    ensures
        dedup_nonempty(a + b) == dedup_from(dedup_nonempty(a), b),
    decreases b.len(),
{
    if b.len() == 0 {
        assert(a + b =~= a);
    } else {
        lemma_dedup_concat(a, b.drop_last());
        assert((a + b).drop_last() =~= a + b.drop_last());
        assert((a + b).last() == b.last());
    }
}

proof fn lemma_dedup_from_keeps(r: Seq<Seq<char>>, b: Seq<Seq<char>>)
    requires
        forall|i: int| 0 <= i < b.len() && b[i].len() > 0 ==> r.contains(#[trigger] b[i]),
    ensures
        dedup_from(r, b) == r,
    decreases b.len(),
{
    if b.len() > 0 {
        assert forall|i: int| 0 <= i < b.drop_last().len() && b.drop_last()[i].len() > 0 implies r.contains(
            #[trigger] b.drop_last()[i],
        ) by {
            assert(b.drop_last()[i] == b[i]);
        }
        lemma_dedup_from_keeps(r, b.drop_last());
        if b.last().len() > 0 {
            assert(r.contains(b[b.len() - 1]));
        }
    }
}

proof fn lemma_dedup_from_appends(r: Seq<Seq<char>>, e: Seq<Seq<char>>)
    requires
        forall|i: int| 0 <= i < e.len() ==> (#[trigger] e[i]).len() > 0 && !r.contains(e[i]),
        forall|i: int, j: int| 0 <= i < j < e.len() ==> e[i] != e[j],
    ensures
        dedup_from(r, e) == r + e,
    decreases e.len(),
{
    if e.len() > 0 {
        let p = e.drop_last();
        assert forall|i: int| 0 <= i < p.len() implies (#[trigger] p[i]).len() > 0 && !r.contains(
            p[i],
        ) by {
            assert(p[i] == e[i]);
        }
        lemma_dedup_from_appends(r, p);
        let x = e.last();
        assert(x.len() > 0 && !r.contains(x)) by {
            assert(e[e.len() - 1] == x);
        }
        assert(!(r + p).contains(x)) by {
            if (r + p).contains(x) {
                let k = choose|k: int| 0 <= k < (r + p).len() && (r + p)[k] == x;
                if k < r.len() {
                    assert(r[k] == x);
                } else {
                    assert(e[k - r.len()] == p[k - r.len()]);
                }
            }
        }
        assert(r + p.push(x) =~= (r + p).push(x));
        assert(p.push(x) =~= e);
    }
}

proof fn lemma_dedup_from_prefix(r: Seq<Seq<char>>, b: Seq<Seq<char>>)
    ensures
        dedup_from(r, b).len() >= r.len(),
        dedup_from(r, b).take(r.len() as int) == r,
    decreases b.len(),
{
    if b.len() > 0 {
        lemma_dedup_from_prefix(r, b.drop_last());
        let k = dedup_from(r, b.drop_last());
        assert(k.push(b.last()).take(r.len() as int) =~= k.take(r.len() as int));
    } else {
        assert(r.take(r.len() as int) =~= r);
    }
}

proof fn lemma_dedup_subset(ps: Seq<Seq<char>>)
    ensures
        forall|i: int|
            0 <= i < dedup_nonempty(ps).len() ==> ps.contains(#[trigger] dedup_nonempty(ps)[i]),
    decreases ps.len(),
{
    if ps.len() > 0 {
        let p = ps.drop_last();
        lemma_dedup_subset(p);
        assert forall|i: int| 0 <= i < dedup_nonempty(ps).len() implies ps.contains(
            #[trigger] dedup_nonempty(ps)[i],
        ) by {
            let d = dedup_nonempty(p);
            if i < d.len() {
                assert(dedup_nonempty(ps)[i] == d[i]);
                let k = choose|k: int| 0 <= k < p.len() && p[k] == d[i];
                assert(ps[k] == p[k]);
            } else {
                assert(ps[ps.len() - 1] == ps.last());
            }
        }
    }
}

/// Whether no entry holds `c`.
pub open spec fn none_holds(ps: Seq<Seq<char>>, c: char) -> bool {
    forall|i: int| 0 <= i < ps.len() ==> !(#[trigger] ps[i]).contains(c)
}

proof fn lemma_split_len(s: Seq<char>, c: char)
    ensures
        split_spec(s, c).len() >= 1,
    decreases s.len(),
{
    if s.len() > 0 {
        lemma_split_len(s.drop_last(), c);
    }
}

proof fn lemma_split_pieces(s: Seq<char>, c: char)
    ensures
        none_holds(split_spec(s, c), c),
    decreases s.len(),
{
    if s.len() > 0 {
        let t = s.drop_last();
        lemma_split_pieces(t, c);
        lemma_split_len(t, c);
        let rest = split_spec(t, c);
        if s.last() != c {
            let piece = rest.last().push(s.last());
            assert(!piece.contains(c)) by {
                if piece.contains(c) {
                    let k = choose|k: int| 0 <= k < piece.len() && piece[k] == c;
                    assert(rest[rest.len() - 1] == rest.last());
                    assert(rest.last()[k] == c);
                }
            }
            assert forall|i: int| 0 <= i < split_spec(s, c).len() implies !(#[trigger] split_spec(
                s,
                c,
            )[i]).contains(c) by {
                if i < rest.len() - 1 {
                    assert(split_spec(s, c)[i] == rest[i]);
                }
            }
        } else {
            assert forall|i: int| 0 <= i < split_spec(s, c).len() implies !(#[trigger] split_spec(
                s,
                c,
            )[i]).contains(c) by {
                if i < rest.len() {
                    assert(split_spec(s, c)[i] == rest[i]);
                }
            }
        }
    }
}

proof fn lemma_split_single(t: Seq<char>, c: char)
    requires
        !t.contains(c),
    ensures
        split_spec(t, c) == seq![t],
    decreases t.len(),
{
    if t.len() > 0 {
        let p = t.drop_last();
        assert(!p.contains(c)) by {
            if p.contains(c) {
                let k = choose|k: int| 0 <= k < p.len() && p[k] == c;
                assert(t[k] == c);
            }
        }
        lemma_split_single(p, c);
        assert(t.last() != c) by {
            assert(t[t.len() - 1] == t.last());
        }
        assert(p.push(t.last()) =~= t);
        assert(seq![p].update(0, p.push(t.last())) =~= seq![t]);
    } else {
        assert(t =~= Seq::<char>::empty());
    }
}

proof fn lemma_split_concat(s: Seq<char>, t: Seq<char>, c: char)
    ensures
        split_spec(s + seq![c] + t, c) == split_spec(s, c) + split_spec(t, c),
    decreases t.len(),
{
    lemma_split_len(t, c);
    if t.len() == 0 {
        assert(s + seq![c] + t =~= s.push(c));
        assert((s.push(c)).drop_last() =~= s);
        assert(split_spec(s, c).push(Seq::empty()) =~= split_spec(s, c) + seq![Seq::<char>::empty()]);
    } else {
        let u = t.drop_last();
        lemma_split_concat(s, u, c);
        lemma_split_len(u, c);
        assert((s + seq![c] + t).drop_last() =~= s + seq![c] + u);
        assert((s + seq![c] + t).last() == t.last());
        let a = split_spec(s, c);
        let b = split_spec(u, c);
        if t.last() == c {
            assert((a + b).push(Seq::empty()) =~= a + b.push(Seq::empty()));
        } else {
            assert((a + b).last() == b.last());
            assert((a + b).update((a + b).len() - 1, b.last().push(t.last())) =~= a + b.update(
                b.len() - 1,
                b.last().push(t.last()),
            ));
        }
    }
}

proof fn lemma_split_join(ps: Seq<Seq<char>>)
    requires
        ps.len() > 0,
        none_holds(ps, ':'),
    ensures
        split_spec(join_spec(ps, ":"@), ':') == ps,
    decreases ps.len(),
{
    reveal_strlit(":");
    if ps.len() == 1 {
        assert(!ps[0].contains(':'));
        lemma_split_single(ps[0], ':');
        assert(seq![ps[0]] =~= ps);
    } else {
        let p = ps.drop_last();
        assert(none_holds(p, ':')) by {
            assert forall|i: int| 0 <= i < p.len() implies !(#[trigger] p[i]).contains(':') by {
                assert(p[i] == ps[i]);
            }
        }
        lemma_split_join(p);
        assert(":"@ =~= seq![':']);
        lemma_split_concat(join_spec(p, ":"@), ps.last(), ':');
        assert(!ps.last().contains(':')) by {
            assert(ps[ps.len() - 1] == ps.last());
        }
        lemma_split_single(ps.last(), ':');
        assert(p + seq![ps.last()] =~= ps);
    }
}

proof fn lemma_common_paths()
    ensures
        dedup_nonempty(common_paths()) == common_paths(),
        none_holds(common_paths(), ':'),
        forall|i: int| 0 <= i < common_paths().len() ==> (#[trigger] common_paths()[i]).len() > 0,
        forall|i: int, j: int|
            0 <= i < j < common_paths().len() ==> common_paths()[i] != common_paths()[j],
{
    reveal_strlit("/opt/homebrew/bin");
    reveal_strlit("/usr/local/bin");
    reveal_strlit("/opt/local/bin");
    reveal_strlit("/usr/bin");
    reveal_strlit("/bin");
    let c = common_paths();
    assert(c[1][1] != c[2][1]);
    assert(c[0].len() != c[1].len() && c[0].len() != c[2].len() && c[0].len() != c[3].len());
    lemma_dedup_concat(Seq::empty(), c);
    assert(Seq::<Seq<char>>::empty() + c =~= c);
    assert(dedup_nonempty(Seq::<Seq<char>>::empty()) =~= Seq::<Seq<char>>::empty());
    lemma_dedup_from_appends(Seq::empty(), c);
    assert(Seq::<Seq<char>>::empty() + c =~= c);
}

/// Merging a merged `PATH` again changes nothing.
pub proof fn law_merge_paths_idempotent(base: Seq<char>)
    ensures
        merge_paths_spec(merge_paths_spec(base)) == merge_paths_spec(base),
{
    let c = common_paths();
    let s = split_spec(base, ':');
    let d = dedup_nonempty(c + s);
    lemma_common_paths();
    lemma_split_pieces(base, ':');
    lemma_dedup_concat(c, s);
    lemma_dedup_from_prefix(c, s);
    law_merged_paths_unique(c + s);
    lemma_dedup_subset(c + s);
    assert(d.take(5) == c);
    assert(none_holds(d, ':')) by {
        assert forall|i: int| 0 <= i < d.len() implies !(#[trigger] d[i]).contains(':') by {
            assert((c + s).contains(d[i]));
            let k = choose|k: int| 0 <= k < (c + s).len() && (c + s)[k] == d[i];
            if k < c.len() {
                assert(c[k] == (c + s)[k]);
            } else {
                assert(s[k - c.len()] == (c + s)[k]);
            }
        }
    }
    assert(d.len() > 0) by {
        assert(d.take(5).len() == 5);
    }
    lemma_split_join(d);
    // d is the common paths followed by entries that are new, non-empty and distinct.
    let e = d.skip(5);
    assert(d =~= c + e);
    assert forall|i: int| 0 <= i < e.len() implies (#[trigger] e[i]).len() > 0 && !c.contains(e[i]) by {
        assert(e[i] == d[i + 5]);
        if c.contains(e[i]) {
            let k = choose|k: int| 0 <= k < c.len() && c[k] == e[i];
            assert(d[k] == c[k]);
        }
    }
    assert forall|i: int, j: int| 0 <= i < j < e.len() implies e[i] != e[j] by {
        assert(e[i] == d[i + 5] && e[j] == d[j + 5]);
    }
    // Merging again: the common paths twice collapse to once, then the new entries follow.
    lemma_dedup_concat(c + c, e);
    assert(c + d =~= (c + c) + e);
    lemma_dedup_concat(c, c);
    lemma_dedup_from_keeps(c, c);
    lemma_dedup_from_appends(c, e);
}

/// The message when `gh` has no session.
pub open spec fn no_session_message() -> Seq<char> {
    "gh no tiene una sesión activa. Ejecuta «gh auth login» en una terminal."@
}

/// The message when `gh` printed no token.
pub open spec fn empty_token_message() -> Seq<char> {
    "gh devolvió un token vacío. Ejecuta «gh auth login»."@
}

/// The message when the `gh` binary is not found.
pub open spec fn gh_not_found_message() -> Seq<char> {
    "no se encontró el binario «gh» en el PATH. Instala GitHub CLI (https://cli.github.com) o usa un token (PAT)."@
}

/// The token that `gh auth token` printed: on failure its trimmed error output (or a message
/// that there is no session where that is empty); on success its trimmed output, which must
/// not be empty.
pub fn gh_token_from_output(success: bool, stdout: &[u8], stderr: &[u8]) -> (r: Result<
    String,
    AuthError,
>)
    ensures
        !success ==> (r matches Err(AuthError::GhCli(m)) && m@ == (if trim_spec(
            utf8_lossy(stderr@),
        ).len() == 0 {
            no_session_message()
        } else {
            trim_spec(utf8_lossy(stderr@))
        })),
        success && trim_spec(utf8_lossy(stdout@)).len() == 0 ==> (r matches Err(
            AuthError::GhCli(m),
        ) && m@ == empty_token_message()),
        success && trim_spec(utf8_lossy(stdout@)).len() > 0 ==> (r matches Ok(t) && t@
            == trim_spec(utf8_lossy(stdout@))),
{
    if !success {
        let err = decode_lossy(stderr);
        let trimmed = trim(err.as_str());
        let msg = if trimmed.unicode_len() == 0 {
            "gh no tiene una sesión activa. Ejecuta «gh auth login» en una terminal.".to_owned()
        } else {
            trimmed
        };
        return Err(AuthError::GhCli(msg));
    }
    let out = decode_lossy(stdout);
    let token = trim(out.as_str());
    if token.unicode_len() == 0 {
        return Err(AuthError::GhCli("gh devolvió un token vacío. Ejecuta «gh auth login».".to_owned()));
    }
    Ok(token)
}

/// The error when `gh` could not be started: a hint to install it where the binary was not
/// found, else the cause.
pub fn gh_spawn_error(not_found: bool, cause: &str) -> (e: AuthError)
    ensures
        (e matches AuthError::GhCli(m) && m@ == (if not_found {
            gh_not_found_message()
        } else {
            cause@
        })),
{
    if not_found {
        AuthError::GhCli(
            "no se encontró el binario «gh» en el PATH. Instala GitHub CLI (https://cli.github.com) o usa un token (PAT).".to_owned(),
        )
    } else {
        AuthError::GhCli(cause.to_owned())
    }
}

/// The `PATH` that the login shell printed: its trimmed output where the shell succeeded
/// and printed something.
pub fn login_path_from_output(success: bool, stdout: &[u8]) -> (p: Option<String>)
    ensures
        !success ==> p is None,
        success && trim_spec(utf8_lossy(stdout@)).len() == 0 ==> p is None,
        success && trim_spec(utf8_lossy(stdout@)).len() > 0 ==> (p matches Some(s) && s@
            == trim_spec(utf8_lossy(stdout@))),
{
    if !success {
        return None;
    }
    let out = decode_lossy(stdout);
    let p = trim(out.as_str());
    if p.unicode_len() == 0 {
        None
    } else {
        Some(p)
    }
}

/// Base URL of GitHub's OAuth endpoints.
pub fn github_oauth_base() -> (s: String)
    ensures
        s@ == "https://github.com"@,
{
    "https://github.com".to_owned()
}

/// What the device flow starts with: the codes, where to enter the user code, and how many
/// seconds to wait between polls.
pub struct DeviceStart {
    pub device_code: String,
    pub user_code: String,
    pub verification_uri: String,
    pub interval: u64,
}

/// The answer to one poll of the device flow.
#[derive(Clone)]
pub enum DevicePoll {
    /// The user has not authorised yet.
    Pending,
    /// The access token.
    Token(String),
}

/// Value of `DevicePoll`: the token by its characters.
pub open spec fn poll_view(p: DevicePoll) -> Option<Seq<char>> {
    match p {
        DevicePoll::Pending => None,
        DevicePoll::Token(t) => Some(t@),
    }
}

impl DevicePoll {
    /// The text that stands for the answer in logs: the token itself is never shown.
    pub fn redacted(&self) -> (s: String)
        ensures
            s@ == match self {
                DevicePoll::Pending => "DevicePoll::Pending"@,
                DevicePoll::Token(_) => "DevicePoll::Token([REDACTED])"@,
            },
    {
        match self {
            DevicePoll::Pending => "DevicePoll::Pending".to_owned(),
            DevicePoll::Token(_) => "DevicePoll::Token([REDACTED])".to_owned(),
        }
    }
}

impl PartialEq for DevicePoll {
    fn eq(&self, other: &DevicePoll) -> (r: bool) {
        match (self, other) {
            (DevicePoll::Pending, DevicePoll::Pending) => true,
            (DevicePoll::Token(a), DevicePoll::Token(b)) => str_eq(a.as_str(), b.as_str()),
            _ => false,
        }
    }
}

impl vstd::std_specs::cmp::PartialEqSpecImpl for DevicePoll {
    open spec fn obeys_eq_spec() -> bool {
        true
    }

    open spec fn eq_spec(&self, other: &DevicePoll) -> bool {
        poll_view(*self) == poll_view(*other)
    }
}

/// URL that starts the device flow.
pub fn device_code_url(base: &str) -> (u: String)
    ensures
        u@ == base@ + "/login/device/code"@,
{
    concat(base, "/login/device/code")
}

/// URL that the device flow polls.
pub fn access_token_url(base: &str) -> (u: String)
    ensures
        u@ == base@ + "/login/oauth/access_token"@,
{
    concat(base, "/login/oauth/access_token")
}

/// Body of the request that starts the device flow.
pub fn device_code_request(client_id: &str) -> (body: Json)
    ensures
        body@ == JV::Object(
            members_from(seq![("client_id"@, JV::Str(client_id@)), ("scope"@, JV::Str("repo read:org"@))]),
        ),
{
    let mut members: Vec<(String, Json)> = Vec::new();
    members.push(("client_id".to_owned(), Json::from_str(client_id)));
    members.push(("scope".to_owned(), Json::from_str("repo read:org")));
    assert(pairs_view(members@) =~= seq![
        ("client_id"@, JV::Str(client_id@)),
        ("scope"@, JV::Str("repo read:org"@)),
    ]);
    Json::object(members)
}

/// Body of one poll of the device flow.
pub fn device_token_request(client_id: &str, device_code: &str) -> (body: Json)
    ensures
        body@ == JV::Object(
            members_from(
                seq![
                    ("client_id"@, JV::Str(client_id@)),
                    ("device_code"@, JV::Str(device_code@)),
                    ("grant_type"@, JV::Str("urn:ietf:params:oauth:grant-type:device_code"@)),
                ],
            ),
        ),
{
    let mut members: Vec<(String, Json)> = Vec::new();
    members.push(("client_id".to_owned(), Json::from_str(client_id)));
    members.push(("device_code".to_owned(), Json::from_str(device_code)));
    members.push(
        (
            "grant_type".to_owned(),
            Json::from_str("urn:ietf:params:oauth:grant-type:device_code"),
        ),
    );
    assert(pairs_view(members@) =~= seq![
        ("client_id"@, JV::Str(client_id@)),
        ("device_code"@, JV::Str(device_code@)),
        ("grant_type"@, JV::Str("urn:ietf:params:oauth:grant-type:device_code"@)),
    ]);
    Json::object(members)
}

/// Reads the answer that starts the device flow: it must carry a device code; the
/// verification address defaults to GitHub's, the interval to 5 seconds.
pub fn device_start_from_response(resp: &Json) -> (r: Result<DeviceStart, AuthError>)
    ensures
        str_or(resp@.at("device_code"@), Seq::empty()).len() == 0 ==> (r matches Err(
            AuthError::Device(m),
        ) && m@ == "respuesta inválida de /login/device/code: falta device_code"@),
        str_or(resp@.at("device_code"@), Seq::empty()).len() > 0 ==> (r matches Ok(d) && d.device_code@
            == str_or(resp@.at("device_code"@), Seq::empty()) && d.user_code@ == str_or(
            resp@.at("user_code"@),
            Seq::empty(),
        ) && d.verification_uri@ == str_or(
            resp@.at("verification_uri"@),
            "https://github.com/login/device"@,
        ) && d.interval == match resp@.at("interval"@).as_u64() {
            Some(n) => n,
            None => 5,
        }),
{
    let device_code = member_str(resp, "device_code");
    if device_code.unicode_len() == 0 {
        return Err(
            AuthError::Device(
                "respuesta inválida de /login/device/code: falta device_code".to_owned(),
            ),
        );
    }
    let interval = match resp.get("interval") {
        Some(x) => match x.as_u64() {
            Some(n) => n,
            None => 5,
        },
        None => 5,
    };
    Ok(
        DeviceStart {
            device_code,
            user_code: member_str(resp, "user_code"),
            verification_uri: member_str_or(
                resp,
                "verification_uri",
                "https://github.com/login/device",
            ),
            interval,
        },
    )
}

/// Reads the answer to a poll: the access token where there is one; pending while the user
/// has not authorised or GitHub asks to slow down; else the error GitHub named.
pub fn device_poll_from_response(resp: &Json) -> (r: Result<DevicePoll, AuthError>)
    ensures
        resp@.at("access_token"@).as_str() matches Some(t) ==> (r matches Ok(
            DevicePoll::Token(s),
        ) && s@ == t),
        resp@.at("access_token"@).as_str() is None ==> match resp@.at("error"@).as_str() {
            Some(e) => if e == "authorization_pending"@ || e == "slow_down"@ {
                r matches Ok(DevicePoll::Pending)
            } else {
                (r matches Err(AuthError::Device(m)) && m@ == e)
            },
            None => (r matches Err(AuthError::Device(m)) && m@ == "respuesta inesperada"@),
        },
{
    let token = match resp.get("access_token") {
        Some(x) => x.as_str(),
        None => None,
    };
    match token {
        Some(t) => {
            return Ok(DevicePoll::Token(t.clone()));
        },
        None => {},
    }
    let error = match resp.get("error") {
        Some(x) => x.as_str(),
        None => None,
    };
    match error {
        Some(e) => {
            if str_eq(e.as_str(), "authorization_pending") || str_eq(
                e.as_str(),
                "slow_down",
            ) {
                Ok(DevicePoll::Pending)
            } else {
                Err(AuthError::Device(e.clone()))
            }
        },
        None => Err(AuthError::Device("respuesta inesperada".to_owned())),
    }
}

/// Where a sign-in token comes from.
#[derive(Clone, Copy, Debug, PartialEq, Eq, Structural)]
pub enum TokenSource {
    /// The token saved in the keychain.
    Saved,
    /// The session of the `gh` CLI.
    GhCli,
}

/// The next step of signing in with what was kept from earlier sessions.
pub enum LoadStep {
    /// Sign in with this token.
    SignIn(String, TokenSource),
    /// Forget the saved token, which no longer works, then ask `gh` for its token.
    ForgetSavedAndAskGh,
    /// Ask `gh` for its token.
    AskGh,
    /// Stop: signed in, or not.
    Finish(bool),
}

/// First step: sign in with the saved token where there is one, else ask `gh`.
pub fn after_saved_token(saved: Option<String>) -> (step: LoadStep)
    ensures
        match saved {
            Some(t) => (step matches LoadStep::SignIn(x, src) && x@ == t@ && src
                == TokenSource::Saved),
            None => step is AskGh,
        },
{
    match saved {
        Some(t) => LoadStep::SignIn(t, TokenSource::Saved),
        None => LoadStep::AskGh,
    }
}

/// After signing in with a token: done where it worked; a saved token that failed is
/// forgotten and `gh` is asked; a token of `gh` that failed ends without a session.
pub fn after_sign_in(source: TokenSource, ok: bool) -> (step: LoadStep)
    ensures
        ok ==> (step matches LoadStep::Finish(b) && b),
        !ok && source == TokenSource::Saved ==> step is ForgetSavedAndAskGh,
        !ok && source == TokenSource::GhCli ==> (step matches LoadStep::Finish(b) && !b),
{
    if ok {
        LoadStep::Finish(true)
    } else {
        match source {
            TokenSource::Saved => LoadStep::ForgetSavedAndAskGh,
            TokenSource::GhCli => LoadStep::Finish(false),
        }
    }
}

/// After asking `gh` for its token: sign in with it, or end without a session.
pub fn after_gh_token(token: Option<String>) -> (step: LoadStep)
    ensures
        match token {
            Some(t) => (step matches LoadStep::SignIn(x, src) && x@ == t@ && src
                == TokenSource::GhCli),
            None => (step matches LoadStep::Finish(b) && !b),
        },
{
    match token {
        Some(t) => LoadStep::SignIn(t, TokenSource::GhCli),
        None => LoadStep::Finish(false),
    }
}

} // verus!
