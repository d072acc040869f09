//! HTTP basic authentication: decoding the credentials out of an
//! `Authorization` header and deciding whether a request may pass. An empty
//! user table lets everything through; otherwise the named user's stored
//! hash must accept the presented password.

use vstd::prelude::*;
use vstd::string::*;
use base64::Engine;
use crate::strutil::{str_chars, push_chars, chars_start_with};

verus! {

/// What base64's standard-alphabet decoder returns for a string: a function
/// of the characters alone.
pub uninterp spec fn base64_standard_decode(s: Seq<char>) -> Option<Seq<u8>>;

/// Relies on the `base64` crate's standard-alphabet engine: decoding is a
/// function of the characters alone.
#[verifier::external_body]
fn base64_decode(s: &str) -> (r: Option<Vec<u8>>)
    ensures
        match r {
            Some(b) => base64_standard_decode(s@) == Some(b@),
            None => base64_standard_decode(s@) is None,
        },
{
    base64::engine::general_purpose::STANDARD.decode(s).ok()
}

/// What `String::from_utf8` returns for a byte sequence: a function of the
/// bytes alone.
pub uninterp spec fn utf8_chars(b: Seq<u8>) -> Option<Seq<char>>;

/// Relies on std's `String::from_utf8`: the bytes decode to a string
/// exactly when they are valid UTF-8, as a function of the bytes alone.
#[verifier::external_body]
fn utf8_to_string(b: Vec<u8>) -> (r: Option<String>)
    ensures
        match r {
            Some(s) => utf8_chars(b@) == Some(s@),
            None => utf8_chars(b@) is None,
        },
{
    String::from_utf8(b).ok()
}

/// What `bcrypt::verify` returns for a password and a stored hash: the
/// check is deterministic in the two strings (the salt is read back out of
/// the hash), and fails (`None`) on a malformed hash.
pub uninterp spec fn bcrypt_accepts(password: Seq<char>, hash: Seq<char>) -> Option<bool>;

/// Relies on `bcrypt::verify`: whether the hash accepts the password, a
/// function of the two strings alone.
#[verifier::external_body]
fn bcrypt_verify(password: &str, hash: &str) -> (r: Option<bool>)
    ensures
        match r {
            Some(ok) => bcrypt_accepts(password@, hash@) == Some(ok),
            None => bcrypt_accepts(password@, hash@) is None,
        },
{
    bcrypt::verify(password, hash).ok()
}

/// First space at or after `from`, or the end of the string.
pub open spec fn space_from(s: Seq<char>, from: int) -> int
    decreases s.len() - from,
{
    if from < 0 || from >= s.len() {
        s.len() as int
    } else if s[from] == ' ' {
        from
    } else {
        space_from(s, from + 1)
    }
}

/// The encoded credential token of a basic-auth header: the header must
/// open with the `Basic` scheme, and the token is what stands between the
/// first space and the next.
pub open spec fn spec_basic_token(h: Seq<char>) -> Option<Seq<char>> {
    if !"Basic "@.is_prefix_of(h) {
        Option::None
    } else {
        let sp1 = space_from(h, 0);
        if sp1 >= h.len() {
            Option::None
        } else {
            Option::Some(h.subrange(sp1 + 1, space_from(h, sp1 + 1)))
        }
    }
}

/// First colon at or after `from`, or the end of the string.
pub open spec fn colon_from(s: Seq<char>, from: int) -> int
    decreases s.len() - from,
{
    if from < 0 || from >= s.len() {
        s.len() as int
    } else if s[from] == ':' {
        from
    } else {
        colon_from(s, from + 1)
    }
}

/// A decoded `user:password` pair: everything before the first colon names
/// the user, everything after it (colons included) is the password; a
/// string without a colon carries no credentials.
pub open spec fn spec_split_colon(s: Seq<char>) -> Option<(Seq<char>, Seq<char>)> {
    let c = colon_from(s, 0);
    if c >= s.len() {
        Option::None
    } else {
        Option::Some((s.subrange(0, c), s.subrange(c + 1, s.len() as int)))
    }
}

/// The credentials carried by an `Authorization` header value: the basic
/// token, base64-decoded, read as UTF-8, split at the first colon.
pub open spec fn spec_decode_credentials(h: Seq<char>) -> Option<(Seq<char>, Seq<char>)> {
    match spec_basic_token(h) {
        Option::None => Option::None,
        Option::Some(tok) => match base64_standard_decode(tok) {
            Option::None => Option::None,
            Option::Some(bytes) => match utf8_chars(bytes) {
                Option::None => Option::None,
                Option::Some(up) => spec_split_colon(up),
            },
        },
    }
}

proof fn lemma_space_from_char(s: Seq<char>, from: int, r: int)
    requires
        0 <= from <= r <= s.len(),
        forall|i: int| from <= i < r ==> s[i] != ' ',
        r < s.len() ==> s[r] == ' ',
    ensures
        space_from(s, from) == r,
    decreases r - from,
{
    if from < r {
        lemma_space_from_char(s, from + 1, r);
    }
}

proof fn lemma_colon_from_char(s: Seq<char>, from: int, r: int)
    requires
        0 <= from <= r <= s.len(),
        forall|i: int| from <= i < r ==> s[i] != ':',
        r < s.len() ==> s[r] == ':',
    ensures
        colon_from(s, from) == r,
    decreases r - from,
{
    if from < r {
        lemma_colon_from_char(s, from + 1, r);
    }
}

fn find_char(v: &Vec<char>, from: usize, needle: char) -> (r: usize)
    requires
        from <= v@.len(),
    ensures
        from <= r <= v@.len(),
        forall|i: int| from <= i < r ==> v@[i] != needle,
        r < v@.len() ==> v@[r as int] == needle,
{
    let n = v.len();
    let mut i: usize = from;
    while i < n
        invariant
            from <= i <= n,
            n == v@.len(),
            forall|j: int| from <= j < i ==> v@[j] != needle,
        decreases n - i,
    {
        if v[i] == needle {
            return i;
        }
        i = i + 1;
    }
    i
}

fn range_to_string(v: &Vec<char>, from: usize, to: usize) -> (r: String)
    requires
        from <= to <= v@.len(),
    ensures
        r@ == v@.subrange(from as int, to as int),
{
    let mut out = String::new();
    push_chars(&mut out, v, from, to);
    out
}

/// The user table: each name with its stored password hash.
pub struct Authenticator {
    pub users: Vec<(String, String)>,
}

/// The stored hash of the first user with this name.
pub open spec fn spec_lookup_user(users: Seq<(String, String)>, name: Seq<char>) -> Option<
    String,
>
    decreases users.len(),
{
    if users.len() == 0 {
        Option::None
    } else if users.first().0@ == name {
        Option::Some(users.first().1)
    } else {
        spec_lookup_user(users.drop_first(), name)
    }
}

/// Whether a request passes: an empty user table lets everything through;
/// otherwise the header must decode to a known user whose stored hash
/// accepts the presented password.
pub open spec fn spec_authenticate(
    users: Seq<(String, String)>,
    header: Option<Seq<char>>,
) -> bool {
    if users.len() == 0 {
        true
    } else {
        match header {
            Option::None => false,
            Option::Some(h) => match spec_decode_credentials(h) {
                Option::None => false,
                Option::Some((u, p)) => match spec_lookup_user(users, u) {
                    Option::None => false,
                    Option::Some(hash) => bcrypt_accepts(p, hash@) == Some(true),
                },
            },
        }
    }
}

impl Authenticator {
    /// Pulls the username and password out of an `Authorization` header
    /// value: the `Basic` scheme's token, base64-decoded and split at the
    /// first colon.
    pub fn decode_username_password(header: &str) -> (r: Option<(String, String)>)
        ensures
            match r {
                Some(up) => spec_decode_credentials(header@) == Some((up.0@, up.1@)),
                None => spec_decode_credentials(header@) is None,
            },
    {
        let v = str_chars(header);
        let scheme = str_chars("Basic ");
        proof {
            reveal_strlit("Basic ");
        }
        if !chars_start_with(&v, &scheme) {
            return None;
        }
        let sp1 = find_char(&v, 0, ' ');
        proof {
            lemma_space_from_char(v@, 0, sp1 as int);
        }
        if sp1 >= v.len() {
            return None;
        }
        let sp2 = find_char(&v, sp1 + 1, ' ');
        proof {
            lemma_space_from_char(v@, sp1 + 1, sp2 as int);
        }
        let token = range_to_string(&v, sp1 + 1, sp2);
        let bytes = match base64_decode(token.as_str()) {
            Some(b) => b,
            None => {
                return None;
            },
        };
        let up = match utf8_to_string(bytes) {
            Some(s) => s,
            None => {
                return None;
            },
        };
        let u = str_chars(up.as_str());
        let c = find_char(&u, 0, ':');
        proof {
            lemma_colon_from_char(u@, 0, c as int);
        }
        if c >= u.len() {
            return None;
        }
        let name = range_to_string(&u, 0, c);
        let pass = range_to_string(&u, c + 1, u.len());
        Some((name, pass))
    }

    /// The stored hash of the first user with this name.
    fn lookup_user(&self, name: &str) -> (r: Option<&String>)
        ensures
            match r {
                Some(h) => spec_lookup_user(self.users@, name@) == Some(*h),
                None => spec_lookup_user(self.users@, name@) is None,
            },
    {
        let n = self.users.len();
        let mut i: usize = 0;
        assert(self.users@.skip(0) =~= self.users@);
        while i < n
            invariant
                i <= n,
                n == self.users@.len(),
                spec_lookup_user(self.users@, name@) == spec_lookup_user(
                    self.users@.skip(i as int),
                    name@,
                ),
            decreases n - i,
        {
            let ghost pre = self.users@.skip(i as int);
            assert(pre.first() == self.users@[i as int]);
            assert(pre.drop_first() =~= self.users@.skip(i + 1));
            if crate::strutil::str_eq(self.users[i].0.as_str(), name) {
                return Some(&self.users[i].1);
            }
            i = i + 1;
        }
        assert(self.users@.skip(n as int).len() == 0);
        None
    }

    /// Decides a request: with no users configured everything passes;
    /// otherwise the header's credentials must name a known user and the
    /// stored hash must accept the password.
    pub fn authenticate(&self, header: Option<&String>) -> (allow: bool)
        ensures
            allow == spec_authenticate(
                self.users@,
                match header {
                    Option::Some(h) => Option::Some(h@),
                    Option::None => Option::None,
                },
            ),
    {
        if self.users.len() == 0 {
            return true;
        }
        let h = match header {
            Some(h) => h,
            None => {
                return false;
            },
        };
        let (name, pass) = match Self::decode_username_password(h.as_str()) {
            Some(up) => up,
            None => {
                return false;
            },
        };
        let hash = match self.lookup_user(name.as_str()) {
            Some(h) => h,
            None => {
                return false;
            },
        };
        match bcrypt_verify(pass.as_str(), hash.as_str()) {
            Some(ok) => ok,
            None => false,
        }
    }
}

} // verus!
