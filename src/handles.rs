//! The three kinds of owner a rule can name: GitHub users, GitHub teams and
//! email addresses.
use vstd::prelude::*;
use vstd::string::*;

verus! {

pub open spec fn is_alnum(c: char) -> bool {
    ('a' <= c && c <= 'z') || ('A' <= c && c <= 'Z') || ('0' <= c && c <= '9')
}

/// ASCII letters and digits with single hyphens between them, between one and
/// `max` characters long.
pub open spec fn is_hyphenated_name(s: Seq<char>, max: nat) -> bool {
    &&& 1 <= s.len() <= max
    &&& is_alnum(s[0])
    &&& is_alnum(s.last())
    &&& forall|i: int| 0 <= i < s.len() ==> #[trigger] is_alnum(s[i]) || s[i] == '-'
    &&& forall|i: int| 0 <= i < s.len() - 1 ==> !(#[trigger] s[i] == '-' && s[i + 1] == '-')
}

/// A GitHub user or organization name.
pub open spec fn valid_identity(s: Seq<char>) -> bool {
    is_hyphenated_name(s, 39)
}

/// The name part of a GitHub team handle.
pub open spec fn valid_team_name(s: Seq<char>) -> bool {
    is_hyphenated_name(s, 255)
}

/// Whether `email_address` accepts the text as an email address.
pub uninterp spec fn valid_email(s: Seq<char>) -> bool;

/// Relies on `email_address::EmailAddress::is_valid`: whether the text parses
/// as an email address; the answer depends on the text alone.
#[verifier::external_body]
fn email_is_valid(s: &str) -> (r: bool)
    ensures
        r == valid_email(s@),
{
    email_address::EmailAddress::is_valid(s)
}

fn is_ascii_alnum(c: char) -> (r: bool)
    ensures
        r == is_alnum(c),
{
    ('a' <= c && c <= 'z') || ('A' <= c && c <= 'Z') || ('0' <= c && c <= '9')
}

fn check_hyphenated_name(s: &Vec<char>, max: usize) -> (r: bool)
    ensures
        r == is_hyphenated_name(s@, max as nat),
{
    let n = s.len();
    if n < 1 || n > max {
        return false;
    }
    if !is_ascii_alnum(s[0]) || !is_ascii_alnum(s[n - 1]) {
        return false;
    }
    let mut i: usize = 0;
    while i < n
        invariant
            n == s.len(),
            i <= n,
            forall|j: int| 0 <= j < i ==> #[trigger] is_alnum(s@[j]) || s@[j] == '-',
            forall|j: int| 0 <= j < i && j < n - 1 ==> !(#[trigger] s@[j] == '-' && s@[j + 1] == '-'),
        decreases n - i,
    {
        let c = s[i];
        if !is_ascii_alnum(c) && c != '-' {
            assert(!(is_alnum(s@[i as int]) || s@[i as int] == '-'));
            return false;
        }
        if i + 1 < n && c == '-' && s[i + 1] == '-' {
            assert(s@[i as int] == '-' && s@[i + 1] == '-');
            return false;
        }
        i += 1;
    }
    true
}

/// A GitHub user or organization, by its name.
#[derive(Debug, PartialEq, Eq, Hash)]
pub struct GithubIdentityHandle(String);

impl View for GithubIdentityHandle {
    type V = Seq<char>;

    closed spec fn view(&self) -> Seq<char> {
        self.0@
    }
}

impl Clone for GithubIdentityHandle {
    fn clone(&self) -> (r: Self)
        ensures
            r == *self,
    {
        GithubIdentityHandle(self.0.clone())
    }
}

impl GithubIdentityHandle {
    pub fn new(handle: String) -> (r: Self)
        ensures
            r@ == handle@,
    {
        Self(handle)
    }

    pub fn inner(&self) -> (r: &str)
        ensures
            r@ == self@,
    {
        self.0.as_str()
    }

    /// Accepts a GitHub user or organization name.
    pub fn parse(handle: &str) -> (r: Option<Self>)
        ensures
            r is Some <==> valid_identity(handle@),
            r matches Some(h) ==> h@ == handle@,
    {
        let cs = crate::text::chars_of(handle);
        if check_hyphenated_name(&cs, 39) {
            Some(Self(handle.to_owned()))
        } else {
            None
        }
    }
}

/// A GitHub team, written `organization/name`.
#[derive(Debug, PartialEq, Eq, Hash)]
pub struct GithubTeamHandle {
    pub organization: GithubIdentityHandle,
    pub name: String,
}

pub struct TeamView {
    pub organization: Seq<char>,
    pub name: Seq<char>,
}

impl View for GithubTeamHandle {
    type V = TeamView;

    open spec fn view(&self) -> TeamView {
        TeamView { organization: self.organization@, name: self.name@ }
    }
}

impl Clone for GithubTeamHandle {
    fn clone(&self) -> (r: Self)
        ensures
            r == *self,
    {
        GithubTeamHandle { organization: self.organization.clone(), name: self.name.clone() }
    }
}

/// The position of the first `/` in `s`, if any.
pub open spec fn slash_index(s: Seq<char>) -> Option<int> {
    if exists|i: int| 0 <= i < s.len() && s[i] == '/' {
        Some(choose|i: int| 0 <= i < s.len() && s[i] == '/' && forall|j: int| 0 <= j < i ==> s[j] != '/')
    } else {
        None
    }
}

/// A team handle `organization/name` with exactly one `/`.
pub open spec fn team_parts(s: Seq<char>) -> Option<TeamView> {
    match slash_index(s) {
        Some(k) => {
            let organization = s.take(k);
            let name = s.skip(k + 1);
            if !name.contains('/') && valid_identity(organization) && valid_team_name(name) {
                Some(TeamView { organization, name })
            } else {
                None
            }
        },
        None => None,
    }
}

impl GithubTeamHandle {
    pub fn new(organization: GithubIdentityHandle, name: String) -> (r: Self)
        ensures
            r.organization == organization,
            r.name == name,
    {
        Self { organization, name }
    }

    /// Accepts `organization/name`.
    pub fn parse(handle: &str) -> (r: Option<Self>)
        ensures
            r is Some <==> team_parts(handle@) is Some,
            r matches Some(t) ==> team_parts(handle@) == Some(t@),
    {
        let cs = crate::text::chars_of(handle);
        let n = cs.len();
        let mut k: usize = 0;
        while k < n && cs[k] != '/'
            invariant
                n == cs.len(),
                cs@ == handle@,
                k <= n,
                forall|j: int| 0 <= j < k ==> cs@[j] != '/',
            decreases n - k,
        {
            k += 1;
        }
        if k == n {
            assert(!(exists|i: int| 0 <= i < handle@.len() && handle@[i] == '/'));
            return None;
        }
        proof {
            let s = handle@;
            assert(0 <= k < s.len() && s[k as int] == '/');
            let c = choose|i: int| 0 <= i < s.len() && s[i] == '/' && forall|j: int| 0 <= j < i ==> s[j] != '/';
            assert(c == k) by {
                if c < k {
                    assert(cs@[c] != '/');
                } else if c > k {
                    assert(s[k as int] != '/');
                }
            }
        }
        let organization = crate::text::string_of(&cs, 0, k);
        let name_chars = crate::text::string_of(&cs, k + 1, n);
        let name_cs = crate::text::chars_of(name_chars.as_str());
        assert(organization@ =~= handle@.take(k as int));
        assert(name_chars@ =~= handle@.skip(k + 1));
        assert(slash_index(handle@) == Some(k as int));
        let mut j: usize = 0;
        while j < name_cs.len()
            invariant
                name_cs@ == name_chars@,
                name_chars@ == handle@.skip(k + 1),
                slash_index(handle@) == Some(k as int),
                j <= name_cs.len(),
                forall|i: int| 0 <= i < j ==> name_cs@[i] != '/',
            decreases name_cs.len() - j,
        {
            if name_cs[j] == '/' {
                assert(name_chars@.contains('/')) by {
                    assert(name_chars@[j as int] == '/');
                }
                return None;
            }
            j += 1;
        }
        assert(!name_chars@.contains('/'));
        let org_cs = crate::text::chars_of(organization.as_str());
        if check_hyphenated_name(&org_cs, 39) && check_hyphenated_name(&name_cs, 255) {
            Some(Self { organization: GithubIdentityHandle(organization), name: name_chars })
        } else {
            None
        }
    }
}

/// An owner given by email address.
#[derive(Debug, PartialEq, Eq, Hash)]
pub struct EmailHandle(String);

impl View for EmailHandle {
    type V = Seq<char>;

    closed spec fn view(&self) -> Seq<char> {
        self.0@
    }
}

impl Clone for EmailHandle {
    fn clone(&self) -> (r: Self)
        ensures
            r == *self,
    {
        EmailHandle(self.0.clone())
    }
}

impl EmailHandle {
    pub fn inner(&self) -> (r: &str)
        ensures
            r@ == self@,
    {
        self.0.as_str()
    }

    /// Accepts an email address.
    pub fn parse(address: &str) -> (r: Option<Self>)
        ensures
            r is Some <==> valid_email(address@),
            r matches Some(e) ==> e@ == address@,
    {
        if email_is_valid(address) {
            Some(EmailHandle(address.to_owned()))
        } else {
            None
        }
    }
}

/// An owner of the paths that a rule's pattern matches.
#[derive(Debug, Eq, Hash)]
pub enum Owner {
    GithubUser(GithubIdentityHandle),
    GithubTeam(GithubTeamHandle),
    EmailAddress(EmailHandle),
}

pub enum OwnerView {
    GithubUser(Seq<char>),
    GithubTeam(TeamView),
    EmailAddress(Seq<char>),
}

impl View for Owner {
    type V = OwnerView;

    open spec fn view(&self) -> OwnerView {
        match self {
            Owner::GithubUser(h) => OwnerView::GithubUser(h@),
            Owner::GithubTeam(t) => OwnerView::GithubTeam(t@),
            Owner::EmailAddress(e) => OwnerView::EmailAddress(e@),
        }
    }
}

impl Clone for Owner {
    fn clone(&self) -> (r: Self)
        ensures
            r == *self,
    {
        match self {
            Owner::GithubUser(h) => Owner::GithubUser(h.clone()),
            Owner::GithubTeam(t) => Owner::GithubTeam(t.clone()),
            Owner::EmailAddress(e) => Owner::EmailAddress(e.clone()),
        }
    }
}

impl PartialEq for Owner {
    fn eq(&self, other: &Owner) -> (r: bool) {
        match (self, other) {
            (Owner::GithubUser(a), Owner::GithubUser(b)) => a.0 == b.0,
            (Owner::GithubTeam(a), Owner::GithubTeam(b)) => a.organization.0 == b.organization.0
                && a.name == b.name,
            (Owner::EmailAddress(a), Owner::EmailAddress(b)) => a.0 == b.0,
            _ => false,
        }
    }
}

impl vstd::std_specs::cmp::PartialEqSpecImpl for Owner {
    open spec fn obeys_eq_spec() -> bool {
        true
    }

    open spec fn eq_spec(&self, other: &Owner) -> bool {
        self@ == other@
    }
}

/// `s` without the `@` characters it starts with.
pub open spec fn strip_ats(s: Seq<char>) -> Seq<char>
    decreases s.len(),
{
    if s.len() > 0 && s[0] == '@' {
        strip_ats(s.drop_first())
    } else {
        s
    }
}

/// The owner that a token of a rule names: `@name` is a user, `@org/name` a
/// team, and any other token holding `@` an email address.
pub open spec fn owner_of(tok: Seq<char>) -> Option<OwnerView> {
    if tok.len() > 0 && tok[0] == '@' {
        let h = strip_ats(tok);
        if tok.contains('/') {
            match team_parts(h) {
                Some(t) => Some(OwnerView::GithubTeam(t)),
                None => None,
            }
        } else if valid_identity(h) {
            Some(OwnerView::GithubUser(h))
        } else {
            None
        }
    } else if tok.contains('@') {
        if valid_email(tok) {
            Some(OwnerView::EmailAddress(tok))
        } else {
            None
        }
    } else {
        None
    }
}

/// The owner as a rule writes it: `@user`, `@org/team` or the address.
pub open spec fn owner_text(o: OwnerView) -> Seq<char> {
    match o {
        OwnerView::GithubUser(h) => "@"@ + h,
        OwnerView::GithubTeam(t) => "@"@ + t.organization + "/"@ + t.name,
        OwnerView::EmailAddress(e) => e,
    }
}

proof fn lemma_name_chars(s: Seq<char>, max: nat)
    requires
        is_hyphenated_name(s, max),
    ensures
        !s.contains('/'),
        s[0] != '@',
        crate::text::ws_free(s),
{
    assert forall|i: int| 0 <= i < s.len() implies !crate::text::is_ws(#[trigger] s[i]) by {
        assert(is_alnum(s[i]) || s[i] == '-');
    }
    if s.contains('/') {
        let i = choose|i: int| 0 <= i < s.len() && s[i] == '/';
        assert(is_alnum(s[i]) || s[i] == '-');
    }
}

proof fn lemma_strip_one_at(h: Seq<char>)
    requires
        h.len() > 0,
        h[0] != '@',
    ensures
        strip_ats("@"@ + h) == h,
{
    reveal_strlit("@");
    let s = "@"@ + h;
    assert(s[0] == '@');
    assert(s.drop_first() =~= h);
    assert(strip_ats(h) == h);
    assert(strip_ats(s) == strip_ats(s.drop_first()));
}

/// An owner read from a token is read back from its written form, which is a
/// single word that is not `#`.
pub proof fn lemma_owner_text_round_trip(tok: Seq<char>, o: OwnerView)
    requires
        crate::text::ws_free(tok),
        owner_of(tok) == Some(o),
    ensures
        owner_text(o).len() > 0,
        crate::text::ws_free(owner_text(o)),
        owner_text(o) != seq!['#'],
        owner_of(owner_text(o)) == Some(o),
{
    reveal_strlit("@");
    reveal_strlit("/");
    let t = owner_text(o);
    match o {
        OwnerView::GithubUser(h) => {
            lemma_name_chars(h, 39);
            lemma_strip_one_at(h);
            assert(t[0] == '@');
            assert(!t.contains('/')) by {
                if t.contains('/') {
                    let i = choose|i: int| 0 <= i < t.len() && t[i] == '/';
                    assert(h[i - 1] == '/');
                    assert(h.contains('/'));
                }
            }
            assert forall|i: int| 0 <= i < t.len() implies !crate::text::is_ws(#[trigger] t[i]) by {
                if i > 0 {
                    assert(t[i] == h[i - 1]);
                }
            }
        },
        OwnerView::GithubTeam(team) => {
            let org = team.organization;
            let name = team.name;
            let h = strip_ats(tok);
            let k = slash_index(h).unwrap();
            assert(team_parts(h) == Some(team));
            assert(org == h.take(k) && name == h.skip(k + 1));
            lemma_name_chars(org, 39);
            lemma_name_chars(name, 255);
            let body = org + "/"@ + name;
            assert(t =~= "@"@ + body);
            assert(body[0] == org[0]);
            lemma_strip_one_at(body);
            let n = org.len() as int;
            assert(body[n] == '/');
            assert(t[n + 1] == '/');
            assert(t.contains('/'));
            assert(exists|i: int| 0 <= i < body.len() && body[i] == '/');
            let c = choose|i: int| 0 <= i < body.len() && body[i] == '/' && forall|j: int| 0 <= j < i ==> body[j] != '/';
            assert(0 <= n < body.len() && body[n] == '/' && forall|j: int| 0 <= j < n ==> body[j] != '/') by {
                assert forall|j: int| 0 <= j < n implies body[j] != '/' by {
                    assert(body[j] == org[j]);
                    if org[j] == '/' {
                        assert(org.contains('/'));
                    }
                }
            }
            assert(c == n) by {
                if c < n {
                    assert(body[c] == org[c]);
                    assert(org.contains('/'));
                } else if c > n {
                    assert(body[n] != '/');
                }
            }
            assert(slash_index(body) == Some(n));
            assert(body.take(n) =~= org);
            assert(body.skip(n + 1) =~= name);
            assert forall|i: int| 0 <= i < t.len() implies !crate::text::is_ws(#[trigger] t[i]) by {
                if 1 <= i < n + 1 {
                    assert(t[i] == org[i - 1]);
                } else if i > n + 1 {
                    assert(t[i] == name[i - n - 2]);
                }
            }
        },
        OwnerView::EmailAddress(e) => {
            assert(tok.contains('@'));
            assert(e == tok);
            assert(t != seq!['#']) by {
                let i = choose|i: int| 0 <= i < tok.len() && tok[i] == '@';
                if t == seq!['#'] {
                    assert(tok[i] == '#');
                }
            }
        },
    }
}

proof fn lemma_strip_ats(s: Seq<char>, k: int)
    requires
        0 <= k <= s.len(),
        forall|j: int| 0 <= j < k ==> s[j] == '@',
        k == s.len() || s[k] != '@',
    ensures
        strip_ats(s) == s.skip(k),
    decreases k,
{
    if k == 0 {
        assert(s.skip(0) =~= s);
    } else {
        let t = s.drop_first();
        assert forall|j: int| 0 <= j < k - 1 implies t[j] == '@' by {
            assert(s[j + 1] == '@');
        }
        lemma_strip_ats(t, k - 1);
        assert(t.skip(k - 1) =~= s.skip(k));
    }
}

impl Owner {
    /// Reads the owner that a token of a rule names, if it names one.
    pub fn parse(token: &str) -> (r: Option<Owner>)
        ensures
            r is Some <==> owner_of(token@) is Some,
            r matches Some(o) ==> owner_of(token@) == Some(o@),
    {
        let cs = crate::text::chars_of(token);
        let n = cs.len();
        if n > 0 && cs[0] == '@' {
            let mut k: usize = 0;
            while k < n && cs[k] == '@'
                invariant
                    n == cs.len(),
                    k <= n,
                    forall|j: int| 0 <= j < k ==> cs@[j] == '@',
                decreases n - k,
            {
                k += 1;
            }
            let handle = crate::text::string_of(&cs, k, n);
            proof {
                lemma_strip_ats(token@, k as int);
                assert(handle@ =~= token@.skip(k as int));
            }
            if crate::text::contains_char(&cs, '/') {
                match GithubTeamHandle::parse(handle.as_str()) {
                    Some(t) => Some(Owner::GithubTeam(t)),
                    None => None,
                }
            } else {
                match GithubIdentityHandle::parse(handle.as_str()) {
                    Some(h) => Some(Owner::GithubUser(h)),
                    None => None,
                }
            }
        } else if crate::text::contains_char(&cs, '@') {
            match EmailHandle::parse(token) {
                Some(e) => Some(Owner::EmailAddress(e)),
                None => None,
            }
        } else {
            None
        }
    }

    /// The owner as a rule writes it.
    pub fn text(&self) -> (r: String)
        ensures
            r@ == owner_text(self@),
    {
        match self {
            Owner::GithubUser(h) => {
                let mut r = String::from_str("@");
                r.append(h.inner());
                r
            },
            Owner::GithubTeam(t) => {
                let mut r = String::from_str("@");
                r.append(t.organization.inner());
                r.append("/");
                r.append(t.name.as_str());
                r
            },
            Owner::EmailAddress(e) => String::from_str(e.inner()),
        }
    }

    pub fn is_github_team(&self) -> (r: bool)
        ensures
            r == (self@ is GithubTeam),
    {
        match self {
            Owner::GithubTeam(_) => true,
            _ => false,
        }
    }

    pub fn is_email_address(&self) -> (r: bool)
        ensures
            r == (self@ is EmailAddress),
    {
        match self {
            Owner::EmailAddress(_) => true,
            _ => false,
        }
    }
}

} // verus!
