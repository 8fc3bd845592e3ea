use vstd::prelude::*;

use crate::api::str_eq;
use crate::clock::{date_second, format_rfc2822, parse_rfc2822, rfc2822_seconds, rfc2822_text};
use crate::error::{UnicomError, UnicomErrorKind};
use crate::pattern::{all_captures, group_text, group_views, regex_captures, regex_valid};

verus! {

/// Lifetime of a new session: five weeks, in seconds.
pub const SESSION_LIFETIME: i64 = 3024000;

#[derive(Debug, Clone, Copy, PartialEq, Eq, Structural)]
pub enum UserLevel {
    Admin,
    Root,
    Normal,
}

/// The user attached to a session.
#[derive(Debug)]
pub struct User {
    pub name: String,
    pub level: UserLevel,
}

impl Clone for User {
    fn clone(&self) -> (r: User)
        ensures
            r == *self,
    {
        User { name: self.name.clone(), level: self.level }
    }
}

fn clone_user(u: &Option<User>) -> (r: Option<User>)
    ensures
        r == *u,
{
    match u {
        Some(x) => Some(x.clone()),
        None => None,
    }
}

/// Lower-case hexadecimal digits of a number, without leading zeros.
pub open spec fn hex_text(v: nat) -> Seq<char>
    decreases v,
{
    if v < 16 {
        seq![hex_digit(v)]
    } else {
        hex_text(v / 16) + seq![hex_digit(v % 16)]
    }
}

pub open spec fn hex_digit(d: nat) -> char {
    if d < 10 {
        (48 + d) as char
    } else {
        (87 + d) as char
    }
}

fn hex_digit_str(d: u64) -> (r: &'static str)
    requires
        d < 16,
    ensures
        r@ == seq![hex_digit(d as nat)],
{
    match d {
        0u64 => {
            proof {
                reveal_strlit("0");
            }
            "0"
        },
        1u64 => {
            proof {
                reveal_strlit("1");
            }
            "1"
        },
        2u64 => {
            proof {
                reveal_strlit("2");
            }
            "2"
        },
        3u64 => {
            proof {
                reveal_strlit("3");
            }
            "3"
        },
        4u64 => {
            proof {
                reveal_strlit("4");
            }
            "4"
        },
        5u64 => {
            proof {
                reveal_strlit("5");
            }
            "5"
        },
        6u64 => {
            proof {
                reveal_strlit("6");
            }
            "6"
        },
        7u64 => {
            proof {
                reveal_strlit("7");
            }
            "7"
        },
        8u64 => {
            proof {
                reveal_strlit("8");
            }
            "8"
        },
        9u64 => {
            proof {
                reveal_strlit("9");
            }
            "9"
        },
        10u64 => {
            proof {
                reveal_strlit("a");
            }
            "a"
        },
        11u64 => {
            proof {
                reveal_strlit("b");
            }
            "b"
        },
        12u64 => {
            proof {
                reveal_strlit("c");
            }
            "c"
        },
        13u64 => {
            proof {
                reveal_strlit("d");
            }
            "d"
        },
        14u64 => {
            proof {
                reveal_strlit("e");
            }
            "e"
        },
        15u64 => {
            proof {
                reveal_strlit("f");
            }
            "f"
        },
        _ => {
            proof {
                reveal_strlit("f");
            }
            "f"
        },
    }
}

fn push_hex(out: &mut String, v: u64)
    ensures
        final(out)@ == old(out)@ + hex_text(v as nat),
    decreases v,
{
    if v >= 16 {
        proof {
            assert(v / 16 < v) by (nonlinear_arith)
                requires
                    v >= 16,
            ;
        }
        push_hex(out, v / 16);
    }
    out.append(hex_digit_str(v % 16));
    proof {
        if v < 16 {
            assert(v % 16 == v);
        }
        assert(out@ =~= old(out)@ + hex_text(v as nat));
    }
}

/// Lower-case hexadecimal digits of a number, without leading zeros.
fn hex_string(v: u64) -> (r: String)
    ensures
        r@ == hex_text(v as nat),
{
    let mut s = String::new();
    push_hex(&mut s, v);
    proof {
        assert(s@ =~= hex_text(v as nat));
    }
    s
}

/// Relies on `rand::random`; nothing is known of the value.
#[verifier::external_body]
fn random_u64() -> u64 {
    rand::random::<u64>()
}

/// A visitor's session: its id, the user attached to it and when it expires
/// (seconds since the Unix epoch).
#[derive(Debug)]
pub struct Session {
    pub id: String,
    pub user: Option<User>,
    pub expire: i64,
}

impl Clone for Session {
    fn clone(&self) -> (r: Session)
        ensures
            r == *self,
    {
        Session { id: self.id.clone(), user: clone_user(&self.user), expire: self.expire }
    }
}

/// A session is evicted once `now` is past its expiry.
pub open spec fn live(s: Session, now: i64) -> bool {
    s.expire >= now
}

impl Session {
    /// A fresh session: `value` in hexadecimal as id, no user, expiring one
    /// lifetime after `now`.
    pub fn new(value: u64, now: i64) -> (r: Session)
        requires
            date_second(now),
            date_second((now + SESSION_LIFETIME) as i64),
        ensures
            r.id@ == hex_text(value as nat),
            r.user is None,
            r.expire == now + SESSION_LIFETIME,
    {
        Session { id: hex_string(value), user: None, expire: now + SESSION_LIFETIME }
    }

    pub fn has_expire(&self, now: i64) -> (r: bool)
        ensures
            r == !live(*self, now),
    {
        self.expire < now
    }

    /// The `Set-Cookie` value for this session.
    pub fn gen_cookies(&self) -> (r: String)
        requires
            date_second(self.expire),
        ensures
            r@ == seq!['s', 'e', 's', 's', 'i', 'o', 'n', 'I', 'D', '='] + self.id@ + seq![
                ';',
                ' ',
                'E',
                'x',
                'p',
                'i',
                'r',
                'e',
                's',
                '=',
            ] + rfc2822_text(self.expire) + "; SameSite=Strict"@,
    {
        let mut c = String::from_str("sessionID=");
        c.append(self.id.as_str());
        c.append("; Expires=");
        let date = format_rfc2822(self.expire);
        c.append(date.as_str());
        c.append("; SameSite=Strict");
        proof {
            reveal_strlit("sessionID=");
            reveal_strlit("; Expires=");
        }
        c
    }

    pub fn get_user(&self) -> (r: Option<User>)
        ensures
            r == self.user,
    {
        clone_user(&self.user)
    }

    pub fn set_user(&mut self, user: Option<User>)
        ensures
            final(self).user == user,
            final(self).id == old(self).id,
            final(self).expire == old(self).expire,
    {
        self.user = user;
    }

    /// The stored form of the session.
    pub fn to_json(&self) -> (r: SessionJson)
        requires
            date_second(self.expire),
        ensures
            session_to_json(*self, r),
            canonical_date(r.expire@),
    {
        SessionJson { id: self.id.clone(), user: clone_user(&self.user), expire: format_rfc2822(self.expire) }
    }

    /// The session that a stored record describes; `Encoding` when its date
    /// is no RFC 2822 date of years 0 to 9999.
    pub fn from_json(j: SessionJson) -> (r: Result<Session, UnicomError>)
        ensures
            match r {
                Ok(s) => json_to_session(j, s),
                Err(e) => e.kind == UnicomErrorKind::Encoding && unreadable_date(j.expire@),
            },
    {
        match parse_rfc2822(j.expire.as_str()) {
            Some(t) => {
                if t < crate::clock::FIRST_DATE_SECOND || t > crate::clock::LAST_DATE_SECOND {
                    return Err(UnicomError::new(UnicomErrorKind::Encoding, "session date out of range"));
                }
                Ok(Session { id: j.id, user: j.user, expire: t })
            },
            None => Err(UnicomError::new(UnicomErrorKind::Encoding, "bad session date")),
        }
    }
}

/// A session as stored in the session file.
#[derive(Debug)]
pub struct SessionJson {
    pub id: String,
    pub user: Option<User>,
    pub expire: String,
}

/// A stored record whose date is in canonical form comes back unchanged
/// from a trip through `Session`: `from_json` then `to_json` give the same
/// id, user and date text.
pub proof fn lemma_json_round_trip(j: SessionJson, s: Session, back: SessionJson)
    requires
        canonical_date(j.expire@),
        json_to_session(j, s),
        session_to_json(s, back),
    ensures
        back.id == j.id,
        back.user == j.user,
        back.expire@ == j.expire@,
{
}

/// After a lookup of `id`, every stored session with that id is live, when
/// session ids are distinct.
pub proof fn lemma_lookup_evicts(ss: Seq<Session>, id: Seq<char>, now: i64)
    requires
        forall|i: int, j: int| 0 <= i < j < ss.len() ==> ss[i].id@ != ss[j].id@,
    ensures
        forall|i: int|
            0 <= i < after_lookup(ss, id, now).len() && (#[trigger] after_lookup(ss, id, now)[i]).id@
                == id ==> live(after_lookup(ss, id, now)[i], now),
{
    let pred = live_at(now);
    let a = after_lookup(ss, id, now);
    assert forall|i: int| 0 <= i < a.len() && (#[trigger] a[i]).id@ == id implies live(a[i], now) by {
        match first_live_match(ss, id, now) {
            Some(k) => {
                let f = ss.subrange(0, k).filter(pred);
                if i < f.len() {
                    assert(a[i] == f[i]);
                    ss.subrange(0, k).lemma_filter_pred(pred, i);
                } else {
                    let w = k + i - f.len();
                    assert(a[i] == ss[w]);
                    if w != k {
                        assert(ss[k].id@ == id);
                    }
                }
            },
            None => {
                ss.lemma_filter_pred(pred, i);
            },
        }
    }
}

/// How a login is checked.
#[derive(Debug, Clone, Copy, PartialEq, Eq, Structural)]
pub enum AuthenticationType {
    Unix,
}

/// What the system knows of an account: its password hash and the names of
/// its groups.
#[derive(Debug)]
pub struct Account {
    pub hash: String,
    pub groups: Vec<String>,
}

/// Whether a password matches a Unix password hash.
pub uninterp spec fn password_matches(password: Seq<char>, hash: Seq<char>) -> bool;

/// A hash made of printable ASCII characters only.
pub open spec fn printable_hash(h: Seq<char>) -> bool {
    forall|i: int| 0 <= i < h.len() ==> ' ' <= #[trigger] h[i] <= '~'
}

/// Relies on `pwhash::unix::verify`: the answer depends on the password and
/// the hash alone. Its salt decoders subtract 0x20 from each character and
/// index a 96-entry table, so they panic below U+0020 and at U+0080: the
/// hash is kept to printable ASCII.
#[verifier::external_body]
fn verify_password(password: &str, hash: &str) -> (r: bool)
    requires
        printable_hash(hash@),
    ensures
        r == password_matches(password@, hash@),
{
    pwhash::unix::verify(password, hash)
}

/// Index of the first session, in order, that is live and has this id.
pub open spec fn first_live_match(ss: Seq<Session>, id: Seq<char>, now: i64) -> Option<int> {
    if exists|k: int|
        0 <= k < ss.len() && live(ss[k], now) && ss[k].id@ == id && forall|j: int|
            0 <= j < k ==> !(live(ss[j], now) && ss[j].id@ == id) {
        Some(
            choose|k: int|
                0 <= k < ss.len() && live(ss[k], now) && ss[k].id@ == id && forall|j: int|
                    0 <= j < k ==> !(live(ss[j], now) && ss[j].id@ == id),
        )
    } else {
        None
    }
}

/// Whether a session is still live at `now`, as a predicate.
pub open spec fn live_at(now: i64) -> spec_fn(Session) -> bool {
    |s: Session| live(s, now)
}

/// The sessions left by a lookup of `id`: the expired ones that the scan
/// walked past are gone.
pub open spec fn after_lookup(ss: Seq<Session>, id: Seq<char>, now: i64) -> Seq<Session> {
    match first_live_match(ss, id, now) {
        Some(k) => ss.subrange(0, k).filter(live_at(now)) + ss.subrange(k, ss.len() as int),
        None => ss.filter(live_at(now)),
    }
}

/// Where the session found by a lookup stands afterwards.
pub open spec fn lookup_index(ss: Seq<Session>, id: Seq<char>, now: i64) -> int {
    ss.subrange(0, first_live_match(ss, id, now).unwrap()).filter(live_at(now)).len() as int
}

/// `j` is the stored form of `s`.
pub open spec fn session_to_json(s: Session, j: SessionJson) -> bool {
    j.id == s.id && j.user == s.user && j.expire@ == rfc2822_text(s.expire)
}

/// `s` is the session that the stored record `j` describes.
pub open spec fn json_to_session(j: SessionJson, s: Session) -> bool {
    s.id == j.id && s.user == j.user && rfc2822_seconds(j.expire@) == Some(s.expire) && date_second(
        s.expire,
    )
}

/// The date of a stored record is the canonical text of a second.
pub open spec fn canonical_date(text: Seq<char>) -> bool {
    exists|t: i64| date_second(t) && text == rfc2822_text(t) && rfc2822_seconds(text) == Some(t)
}

/// A stored date that is no RFC 2822 date of years 0 to 9999.
pub open spec fn unreadable_date(text: Seq<char>) -> bool {
    match rfc2822_seconds(text) {
        Some(t) => !date_second(t),
        None => true,
    }
}

/// The level that a login gets: `Admin` for members of `sudo`.
pub open spec fn level_of(groups: Seq<String>) -> UserLevel {
    if exists|i: int| 0 <= i < groups.len() && groups[i]@ == "sudo"@ {
        UserLevel::Admin
    } else {
        UserLevel::Normal
    }
}

/// The cookie pattern that carries a session id.
pub open spec fn cookie_pattern() -> Seq<char> {
    "sessionID=([0-9a-f]+);"@
}

/// Session ids that a `Cookie` header offers, in order.
pub open spec fn cookie_ids(cookie: Seq<char>) -> Seq<Seq<char>> {
    regex_captures(cookie_pattern(), cookie + seq![';']).map_values(
        |g: Seq<Option<Seq<char>>>| if g.len() > 1 { group_text(g[1]) } else { Seq::empty() },
    )
}

/// Looks up the offered ids in order: the session of the first one that
/// is live, and the sessions left once every lookup made has evicted the
/// expired sessions it walked past.
pub open spec fn offered_lookup(ss: Seq<Session>, ids: Seq<Seq<char>>, now: i64) -> (Option<Session>, Seq<Session>)
    decreases ids.len(),
{
    if ids.len() == 0 {
        (None, ss)
    } else {
        match first_live_match(ss, ids[0], now) {
            Some(k) => (Some(ss[k]), after_lookup(ss, ids[0], now)),
            None => offered_lookup(after_lookup(ss, ids[0], now), ids.drop_first(), now),
        }
    }
}

/// What the lookup of a `Cookie` header finds, and the sessions left.
pub open spec fn cookie_lookup(ss: Seq<Session>, cookie: Option<Seq<char>>, now: i64) -> (Option<Session>, Seq<Session>) {
    match cookie {
        Some(c) => if regex_valid(cookie_pattern()) {
            offered_lookup(ss, cookie_ids(c), now)
        } else {
            (None, ss)
        },
        None => (None, ss),
    }
}

pub open spec fn opt_chars(o: Option<&str>) -> Option<Seq<char>> {
    match o {
        Some(s) => Some(s@),
        None => None,
    }
}

/// The id of a fresh session: lower-case hexadecimal of some 64-bit value.
pub open spec fn hex_id(id: Seq<char>) -> bool {
    exists|v: u64| id == hex_text(v as nat)
}

/// The sessions of the hub and how logins are checked.
pub struct SessionManager {
    path: String,
    sessions: Vec<Session>,
    a_type: AuthenticationType,
}

impl SessionManager {
    pub closed spec fn view(&self) -> Seq<Session> {
        self.sessions@
    }

    pub closed spec fn path_view(&self) -> Seq<char> {
        self.path@
    }

    /// Every stored expiry is a second that an RFC 2822 date can express.
    pub open spec fn wf(&self) -> bool {
        forall|i: int| 0 <= i < self@.len() ==> date_second(#[trigger] self@[i].expire)
    }

    pub fn new(path: &str) -> (r: SessionManager)
        ensures
            r.wf(),
            r@.len() == 0,
            r.path_view() == path@,
    {
        SessionManager { path: path.to_owned(), sessions: Vec::new(), a_type: AuthenticationType::Unix }
    }

    /// The session file.
    pub fn path(&self) -> (r: &String)
        ensures
            r@ == self.path_view(),
    {
        &self.path
    }

    /// Adds a fresh session with id `value` in hexadecimal.
    pub fn create_with(&mut self, value: u64, now: i64) -> (r: Session)
        requires
            old(self).wf(),
            date_second(now),
            date_second((now + SESSION_LIFETIME) as i64),
        ensures
            final(self).wf(),
            final(self).path_view() == old(self).path_view(),
            r.id@ == hex_text(value as nat),
            r.user is None,
            r.expire == now + SESSION_LIFETIME,
            final(self)@ == old(self)@.push(r),
    {
        let s = Session::new(value, now);
        let r = s.clone();
        self.sessions.push(s);
        r
    }

    /// Adds a fresh session with a random id.
    pub fn create(&mut self, now: i64) -> (r: Session)
        requires
            old(self).wf(),
            date_second(now),
            date_second((now + SESSION_LIFETIME) as i64),
        ensures
            final(self).wf(),
            final(self).path_view() == old(self).path_view(),
            hex_id(r.id@),
            r.user is None,
            r.expire == now + SESSION_LIFETIME,
            final(self)@ == old(self)@.push(r),
    {
        let v = random_u64();
        self.create_with(v, now)
    }

    fn lookup(&mut self, id: &str, now: i64) -> (r: Option<usize>)
        requires
            old(self).wf(),
        ensures
            final(self).wf(),
            final(self).path_view() == old(self).path_view(),
            final(self)@ == after_lookup(old(self)@, id@, now),
            match (r, first_live_match(old(self)@, id@, now)) {
                (Some(i), Some(k)) => i == lookup_index(old(self)@, id@, now) && i < final(self)@.len()
                    && final(self)@[i as int] == old(self)@[k],
                (None, None) => true,
                _ => false,
            },
    {
        let ghost ss = self.sessions@;
        let ghost pred = live_at(now);
        let mut rest: Vec<Session> = Vec::new();
        std::mem::swap(&mut rest, &mut self.sessions);
        let n = rest.len();
        let mut k: usize = 0;
        while k < n
            invariant
                n == ss.len(),
                ss == old(self)@,
                pred == live_at(now),
                0 <= k <= n,
                rest@ == ss.subrange(k as int, n as int),
                self.sessions@ == ss.subrange(0, k as int).filter(pred),
                self.path == old(self).path,
                forall|j: int| 0 <= j < k ==> !(live(ss[j], now) && ss[j].id@ == id@),
                forall|i: int| 0 <= i < ss.len() ==> date_second(#[trigger] ss[i].expire),
            decreases n - k,
        {
            let s = rest.remove(0);
            proof {
                assert(rest@ =~= ss.subrange(k + 1, n as int));
                assert(ss.subrange(0, k + 1) =~= ss.subrange(0, k as int).push(ss[k as int]));
                ss.subrange(0, k as int).lemma_filter_push(ss[k as int], pred);
            }
            if s.has_expire(now) {
                k = k + 1;
            } else if str_eq(s.id.as_str(), id) {
                let i = self.sessions.len();
                let ghost kept = self.sessions@;
                self.sessions.push(s);
                append_all(&mut self.sessions, rest);
                proof {
                    let kk = k as int;
                    lemma_first_at(ss, id@, now, kk);
                    assert(s == ss[kk]);
                    assert(kept == ss.subrange(0, kk).filter(live_at(now)));
                    assert(self.sessions@ =~= kept.push(ss[kk]) + ss.subrange(kk + 1, n as int));
                    assert(ss.subrange(kk, n as int) =~= seq![ss[kk]] + ss.subrange(kk + 1, n as int));
                    assert(self.sessions@ =~= after_lookup(ss, id@, now));
                    assert forall|q: int| 0 <= q < self.sessions@.len() implies date_second(#[trigger] self.sessions@[q].expire) by {
                        if q < kept.len() {
                            assert(kept.contains(kept[q]));
                            ss.subrange(0, kk).lemma_filter_contains_rev(pred, kept[q]);
                            let w = choose|w: int| 0 <= w < kk && ss.subrange(0, kk)[w] == kept[q];
                            assert(ss[w] == kept[q]);
                        } else {
                            assert(self.sessions@[q] == ss[kk + q - kept.len()]);
                        }
                    }
                    assert(self.sessions@[i as int] == ss[kk]);
                }
                return Some(i);
            } else {
                self.sessions.push(s);
                k = k + 1;
            }
        }
        proof {
            assert(ss.subrange(0, n as int) =~= ss);
            if exists|c: int|
                0 <= c < ss.len() && live(ss[c], now) && ss[c].id@ == id@ && forall|j: int|
                    0 <= j < c ==> !(live(ss[j], now) && ss[j].id@ == id@) {
                let c = choose|c: int|
                    0 <= c < ss.len() && live(ss[c], now) && ss[c].id@ == id@ && forall|j: int|
                        0 <= j < c ==> !(live(ss[j], now) && ss[j].id@ == id@);
                assert(!(live(ss[c], now) && ss[c].id@ == id@));
            }
            assert forall|q: int| 0 <= q < self.sessions@.len() implies date_second(#[trigger] self.sessions@[q].expire) by {
                ss.lemma_filter_contains_rev(pred, self.sessions@[q]);
                assert(self.sessions@.contains(self.sessions@[q]));
                let w = choose|w: int| 0 <= w < ss.len() && ss[w] == self.sessions@[q];
            }
        }
        None
    }

    /// The live session with this id, evicting on the way every expired
    /// session that the scan walks past.
    pub fn get(&mut self, id: &str, now: i64) -> (r: Option<Session>)
        requires
            old(self).wf(),
        ensures
            final(self).wf(),
            final(self).path_view() == old(self).path_view(),
            final(self)@ == after_lookup(old(self)@, id@, now),
            r == match first_live_match(old(self)@, id@, now) {
                Some(k) => Some(old(self)@[k]),
                None => None,
            },
    {
        match self.lookup(id, now) {
            Some(i) => Some(self.sessions[i].clone()),
            None => None,
        }
    }

    /// Attaches a user to the session `id`. An empty user name logs out.
    /// Otherwise the password must match the account's hash (`NotAllowed`
    /// when there is no account, its hash is not printable ASCII, or it does not match); members of `sudo`
    /// become `Admin`, others `Normal`. `ParameterInvalid` when no live
    /// session has this id.
    pub fn authentication(&mut self, id: &str, user_name: &str, password: &str, account: Option<&Account>, now: i64) -> (r: Result<(), UnicomError>)
        requires
            old(self).wf(),
        ensures
            final(self).wf(),
            final(self).path_view() == old(self).path_view(),
            first_live_match(old(self)@, id@, now) is None ==> r is Err && r->Err_0.kind
                == UnicomErrorKind::ParameterInvalid && final(self)@ == after_lookup(old(self)@, id@, now),
            first_live_match(old(self)@, id@, now) is Some ==> {
                let base = after_lookup(old(self)@, id@, now);
                let i = lookup_index(old(self)@, id@, now);
                let ok = user_name@.len() == 0 || (account is Some && printable_hash(
                    account.unwrap().hash@,
                ) && password_matches(password@, account.unwrap().hash@));
                &&& 0 <= i < base.len()
                &&& ok ==> r is Ok && final(self)@.len() == base.len() && (forall|j: int|
                    0 <= j < base.len() && j != i ==> final(self)@[j] == base[j]) && final(self)@[i].id
                    == base[i].id && final(self)@[i].expire == base[i].expire && (if user_name@.len()
                    == 0 {
                    final(self)@[i].user is None
                } else {
                    final(self)@[i].user matches Some(u) && u.name@ == user_name@ && u.level == level_of(
                        account.unwrap().groups@,
                    )
                })
                &&& !ok ==> r is Err && r->Err_0.kind == UnicomErrorKind::NotAllowed && final(self)@
                    == base
            },
    {
        let i = match self.lookup(id, now) {
            Some(i) => i,
            None => {
                return Err(UnicomError::new(UnicomErrorKind::ParameterInvalid, "session id not found"));
            },
        };
        let user = if user_name.is_empty() {
            None
        } else {
            let acc = match account {
                Some(a) => a,
                None => {
                    return Err(UnicomError::new(UnicomErrorKind::NotAllowed, "user/password not allowed"));
                },
            };
            if !is_printable(acc.hash.as_str()) || !verify_password(password, acc.hash.as_str()) {
                return Err(UnicomError::new(UnicomErrorKind::NotAllowed, "user/password not allowed"));
            }
            let level = group_level(&acc.groups);
            Some(User { name: user_name.to_owned(), level })
        };
        let ghost base = self.sessions@;
        self.sessions[i].set_user(user);
        proof {
            assert forall|q: int| 0 <= q < self.sessions@.len() implies date_second(#[trigger] self.sessions@[q].expire) by {
                assert(date_second(base[q].expire));
            }
        }
        Ok(())
    }

    /// The stored form of every session, in order.
    pub fn to_json_all(&self) -> (r: Vec<SessionJson>)
        requires
            self.wf(),
        ensures
            r@.len() == self@.len(),
            forall|i: int| 0 <= i < r@.len() ==> session_to_json(self@[i], #[trigger] r@[i]),
    {
        let mut out: Vec<SessionJson> = Vec::new();
        let mut i: usize = 0;
        while i < self.sessions.len()
            invariant
                self.wf(),
                0 <= i <= self@.len(),
                out@.len() == i,
                forall|j: int| 0 <= j < i ==> session_to_json(self@[j], #[trigger] out@[j]),
            decreases self@.len() - i,
        {
            out.push(self.sessions[i].to_json());
            i = i + 1;
        }
        out
    }

    /// Restores stored sessions after a fresh one, the last record first.
    /// Refused whole with `Encoding` when a record's date cannot be read.
    pub fn load(&mut self, data: Vec<SessionJson>, now: i64) -> (r: Result<(), UnicomError>)
        requires
            old(self).wf(),
            date_second(now),
            date_second((now + SESSION_LIFETIME) as i64),
        ensures
            final(self).wf(),
            final(self).path_view() == old(self).path_view(),
            match r {
                Ok(()) => {
                    let n = old(self)@.len();
                    &&& final(self)@.len() == n + 1 + data@.len()
                    &&& final(self)@.subrange(0, n as int) == old(self)@
                    &&& final(self)@[n as int].user is None
                    &&& final(self)@[n as int].expire == now + SESSION_LIFETIME
                    &&& forall|i: int|
                        0 <= i < data@.len() ==> json_to_session(
                            data@[data@.len() - 1 - i],
                            #[trigger] final(self)@[n + 1 + i],
                        )
                },
                Err(e) => e.kind == UnicomErrorKind::Encoding && final(self)@ == old(self)@ && exists|i: int|
                    0 <= i < data@.len() && unreadable_date(#[trigger] data@[i].expire@),
            },
    {
        let ghost d0 = data@;
        let mut remaining = data;
        let mut restored: Vec<Session> = Vec::new();
        while remaining.len() > 0
            invariant
                self.sessions@ == old(self)@,
                self.path == old(self).path,
                old(self).wf(),
                d0 == data@,
                remaining@ == d0.subrange(0, d0.len() - restored@.len()),
                restored@.len() <= d0.len(),
                forall|i: int|
                    0 <= i < restored@.len() ==> json_to_session(d0[d0.len() - 1 - i], #[trigger] restored@[i]),
            decreases remaining@.len(),
        {
            let j = remaining.pop().unwrap();
            let ghost jj = j;
            match Session::from_json(j) {
                Ok(s) => {
                    restored.push(s);
                },
                Err(e) => {
                    proof {
                        let w = d0.len() - 1 - restored@.len();
                        assert(jj == d0[w]);
                        assert(unreadable_date(d0[w].expire@));
                        assert(0 <= w < d0.len());
                        assert(exists|i: int| 0 <= i < d0.len() && unreadable_date(#[trigger] d0[i].expire@));
                    }
                    return Err(e);
                },
            }
            proof {
                assert(remaining@ =~= d0.subrange(0, d0.len() - restored@.len()));
            }
        }
        let ghost s0 = self.sessions@;
        let fresh = Session::new(random_u64(), now);
        self.sessions.push(fresh);
        let ghost s1 = self.sessions@;
        append_all(&mut self.sessions, restored);
        proof {
            assert(self.sessions@.subrange(0, s0.len() as int) =~= s0);
            assert(self.sessions@[s0.len() as int] == s1[s0.len() as int]);
            assert forall|q: int| 0 <= q < self.sessions@.len() implies date_second(#[trigger] self.sessions@[q].expire) by {
                if q < s0.len() {
                    assert(self.sessions@[q] == s0[q]);
                } else if q > s0.len() {
                    assert(json_to_session(d0[d0.len() - 1 - (q - s0.len() - 1)], self.sessions@[q]));
                }
            }
        }
        Ok(())
    }

    /// The session of a request: the one its cookie designates, or else a
    /// fresh one with the `Set-Cookie` value to send back.
    pub fn find_or_create(&mut self, cookie: Option<&str>, now: i64) -> (r: (Session, Option<String>))
        requires
            old(self).wf(),
            date_second(now),
            date_second((now + SESSION_LIFETIME) as i64),
        ensures
            final(self).wf(),
            final(self).path_view() == old(self).path_view(),
            ({
                let (found, left) = cookie_lookup(old(self)@, opt_chars(cookie), now);
                match found {
                    Some(s) => r.0 == s && r.1 is None && final(self)@ == left,
                    None => r.1 is Some && final(self)@ == left.push(r.0),
                }
            }),
            r.1 matches Some(c) ==> hex_id(r.0.id@) && r.0.user is None && r.0.expire == now + SESSION_LIFETIME
                && c@ == seq!['s', 'e', 's', 's', 'i', 'o', 'n', 'I', 'D', '=']
                + r.0.id@ + seq![';', ' ', 'E', 'x', 'p', 'i', 'r', 'e', 's', '='] + rfc2822_text(r.0.expire)
                + "; SameSite=Strict"@,
    {
        match self.parse_session(cookie, now) {
            Some(s) => (s, None),
            None => {
                let s = self.create(now);
                let c = s.gen_cookies();
                (s, Some(c))
            },
        }
    }

    /// The session that the `Cookie` header designates: the first offered id
    /// with a live session.
    pub fn parse_session(&mut self, cookie: Option<&str>, now: i64) -> (r: Option<Session>)
        requires
            old(self).wf(),
        ensures
            final(self).wf(),
            final(self).path_view() == old(self).path_view(),
            (r, final(self)@) == cookie_lookup(old(self)@, opt_chars(cookie), now),
    {
        let c = match cookie {
            Some(c) => c,
            None => return None,
        };
        let mut text = String::from_str(c);
        text.append(";");
        let pattern = "sessionID=([0-9a-f]+);";
        proof {
            reveal_strlit(";");
            assert(text@ =~= c@ + seq![';']);
            assert(pattern@ == cookie_pattern());
        }
        let ms = match all_captures(pattern, text.as_str()) {
            Some(ms) => ms,
            None => return None,
        };
        proof {
            assert(forall|q: int| 0 <= q < ms@.len() ==> crate::pattern::matches_views(ms@)[q] == group_views(#[trigger] ms@[q]@));
        }
        let ghost ids = cookie_ids(c@);
        let mut k: usize = 0;
        proof {
            assert(ids.subrange(0, ids.len() as int) =~= ids);
        }
        while k < ms.len()
            invariant
                cookie == Some(c),
                regex_valid(cookie_pattern()),
                ids == cookie_ids(c@),
                matches_views_eq(ms@, c@),
                self.wf(),
                self.path_view() == old(self).path_view(),
                0 <= k <= ms@.len(),
                ids.len() == ms@.len(),
                forall|q: int| 0 <= q < ms@.len() ==> ids[q] == {
                    let g = group_views(#[trigger] ms@[q]@);
                    if g.len() > 1 { group_text(g[1]) } else { Seq::<char>::empty() }
                },
                offered_lookup(old(self)@, ids, now) == offered_lookup(
                    self@,
                    ids.subrange(k as int, ids.len() as int),
                    now,
                ),
            decreases ms@.len() - k,
        {
            let groups = crate::pattern::groups_as_text(&ms[k]);
            let id = if groups.len() > 1 { groups[1].clone() } else { String::new() };
            let ghost before = self@;
            let ghost t = ids.subrange(k as int, ids.len() as int);
            proof {
                assert(id@ == ids[k as int]);
                assert(t[0] == ids[k as int]);
                assert(t.drop_first() =~= ids.subrange(k + 1, ids.len() as int));
            }
            match self.get(id.as_str(), now) {
                Some(s) => {
                    return Some(s);
                },
                None => {},
            }
            k = k + 1;
        }
        None
    }
}

fn is_printable(h: &str) -> (r: bool)
    ensures
        r == printable_hash(h@),
{
    let cs = crate::text::chars_of(h);
    let mut i: usize = 0;
    while i < cs.len()
        invariant
            cs@ == h@,
            0 <= i <= cs@.len(),
            forall|j: int| 0 <= j < i ==> ' ' <= #[trigger] h@[j] <= '~',
        decreases cs@.len() - i,
    {
        if !(' ' <= cs[i] && cs[i] <= '~') {
            return false;
        }
        i = i + 1;
    }
    true
}

fn group_level(groups: &Vec<String>) -> (r: UserLevel)
    ensures
        r == level_of(groups@),
{
    let mut i: usize = 0;
    while i < groups.len()
        invariant
            0 <= i <= groups@.len(),
            forall|j: int| 0 <= j < i ==> groups@[j]@ != "sudo"@,
        decreases groups@.len() - i,
    {
        if str_eq(groups[i].as_str(), "sudo") {
            return UserLevel::Admin;
        }
        i = i + 1;
    }
    UserLevel::Normal
}

fn append_all(dst: &mut Vec<Session>, src: Vec<Session>)
    ensures
        final(dst)@ == old(dst)@ + src@,
{
    let mut src = src;
    let ghost s0 = src@;
    let total = src.len();
    let mut m: usize = 0;
    while m < total
        invariant
            total == s0.len(),
            0 <= m <= total,
            src@ == s0.subrange(m as int, total as int),
            dst@ == old(dst)@ + s0.subrange(0, m as int),
        decreases total - m,
    {
        let x = src.remove(0);
        dst.push(x);
        proof {
            assert(src@ =~= s0.subrange(m + 1, total as int));
            assert(dst@ =~= old(dst)@ + s0.subrange(0, m + 1));
        }
        m = m + 1;
    }
    proof {
        assert(s0.subrange(0, total as int) =~= s0);
    }
}

proof fn lemma_first_at(ss: Seq<Session>, id: Seq<char>, now: i64, k: int)
    requires
        0 <= k < ss.len(),
        live(ss[k], now),
        ss[k].id@ == id,
        forall|j: int| 0 <= j < k ==> !(live(ss[j], now) && ss[j].id@ == id),
    ensures
        first_live_match(ss, id, now) == Some(k),
{
    let c = choose|c: int|
        0 <= c < ss.len() && live(ss[c], now) && ss[c].id@ == id && forall|j: int|
            0 <= j < c ==> !(live(ss[j], now) && ss[j].id@ == id);
    if c < k {
    } else if c > k {
        assert(!(live(ss[k], now) && ss[k].id@ == id));
    }
}

proof fn lemma_first_exists(ss: Seq<Session>, id: Seq<char>, now: i64, w: int)
    requires
        0 <= w < ss.len(),
        live(ss[w], now),
        ss[w].id@ == id,
    ensures
        first_live_match(ss, id, now) is Some,
    decreases w,
{
    if exists|j: int| 0 <= j < w && live(ss[j], now) && ss[j].id@ == id {
        let j = choose|j: int| 0 <= j < w && live(ss[j], now) && ss[j].id@ == id;
        lemma_first_exists(ss, id, now, j);
    } else {
        assert(forall|j: int| 0 <= j < w ==> !(live(ss[j], now) && ss[j].id@ == id));
    }
}

proof fn lemma_no_match_after(ss: Seq<Session>, id: Seq<char>, now: i64)
    requires
        first_live_match(ss, id, now) is None,
    ensures
        forall|i: int|
            0 <= i < after_lookup(ss, id, now).len() ==> !(live(#[trigger] after_lookup(ss, id, now)[i], now)
                && after_lookup(ss, id, now)[i].id@ == id),
{
    let pred = live_at(now);
    let a = after_lookup(ss, id, now);
    assert(a == ss.filter(pred));
    assert forall|i: int| 0 <= i < a.len() implies !(live(#[trigger] a[i], now) && a[i].id@ == id) by {
        let x = a[i];
        assert(a.contains(x));
        ss.lemma_filter_contains_rev(pred, x);
        let w = choose|w: int| 0 <= w < ss.len() && ss[w] == x;
        if live(x, now) && x.id@ == id {
            lemma_first_exists(ss, id, now, w);
        }
    }
}

proof fn lemma_after_lookup_subset(ss: Seq<Session>, id: Seq<char>, now: i64)
    ensures
        forall|i: int|
            0 <= i < after_lookup(ss, id, now).len() ==> ss.contains(#[trigger] after_lookup(ss, id, now)[i]),
{
    let pred = live_at(now);
    let a = after_lookup(ss, id, now);
    assert forall|i: int| 0 <= i < a.len() implies ss.contains(#[trigger] a[i]) by {
        match first_live_match(ss, id, now) {
            Some(k) => {
                let p = ss.subrange(0, k);
                let f = p.filter(pred);
                if i < f.len() {
                    assert(a[i] == f[i]);
                    assert(f.contains(f[i]));
                    p.lemma_filter_contains_rev(pred, f[i]);
                    let w = choose|w: int| 0 <= w < p.len() && p[w] == f[i];
                    assert(ss[w] == a[i]);
                } else {
                    assert(a[i] == ss[k + i - f.len()]);
                }
            },
            None => {
                assert(a.contains(a[i]));
                ss.lemma_filter_contains_rev(pred, a[i]);
            },
        }
    }
}

/// The groups of the matches, as texts, are those the pattern names.
spec fn matches_views_eq(ms: Seq<Vec<Option<String>>>, c: Seq<char>) -> bool {
    crate::pattern::matches_views(ms) == regex_captures(cookie_pattern(), c + seq![';'])
}

} // verus!
