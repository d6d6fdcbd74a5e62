use vstd::prelude::*;

use crate::text::same_text;
use vstd::utf8::encode_utf8;

verus! {

#[verifier::external_type_specification]
#[verifier::external_body]
pub struct ExBcryptError(bcrypt::BcryptError);

/// What `bcrypt::verify(password, hash)` returns: `Some(b)` for `Ok(b)`,
/// `None` for an error (a malformed hash).
pub uninterp spec fn bcrypt_verdict(password: Seq<char>, hash: Seq<char>) -> Option<bool>;

/// Relies on `bcrypt::hash` at `DEFAULT_COST`: the password hashed under a
/// fresh random salt. Such a hash always verifies against its password.
#[verifier::external_body]
pub fn hash_password(password: &str) -> (r: Result<String, bcrypt::BcryptError>)
    ensures
        r matches Ok(h) ==> bcrypt_verdict(password@, h@) == Some(true),
{
    bcrypt::hash(password, bcrypt::DEFAULT_COST)
}

/// Relies on `bcrypt::verify`: whether `password` hashes to `hash` under the
/// cost and salt that `hash` holds; the outcome depends on the two strings
/// alone.
#[verifier::external_body]
pub fn verify_password(password: &str, hash: &str) -> (r: Result<bool, bcrypt::BcryptError>)
    ensures
        match bcrypt_verdict(password@, hash@) {
            Some(b) => r matches Ok(x) && x == b,
            None => r is Err,
        },
{
    bcrypt::verify(password, hash)
}

/// The code a new account must present.
pub open spec fn registration_code() -> Seq<char> {
    "N2S2024"@
}

/// A registered account.
#[derive(Clone, Debug)]
pub struct User {
    pub username: String,
    pub password_hash: String,
}

/// The claims a session token carries: who, and until when (seconds since
/// the epoch).
#[derive(Clone, Debug)]
pub struct Claims {
    pub username: String,
    pub exp: usize,
}

#[derive(Clone, Debug)]
pub struct LoginRequest {
    pub username: String,
    pub password: String,
}

#[derive(Clone, Debug)]
pub struct RegisterRequest {
    pub username: String,
    pub password: String,
    pub registration_code: String,
}

#[derive(Clone, Debug)]
pub struct AuthResponse {
    pub token: String,
    pub message: String,
}

/// No two accounts share a name.
pub open spec fn names_unique(users: Seq<(Seq<char>, Seq<char>)>) -> bool {
    forall|i: int, j: int|
        0 <= i < users.len() && 0 <= j < users.len() && i != j ==> (#[trigger] users[i]).0 != (
        #[trigger] users[j]).0
}

proof fn lemma_hash_of_absent(users: Seq<(Seq<char>, Seq<char>)>, name: Seq<char>)
    requires
        hash_of(users, name) is None,
    ensures
        forall|i: int| 0 <= i < users.len() ==> (#[trigger] users[i]).0 != name,
    decreases users.len(),
{
    if users.len() > 0 {
        lemma_hash_of_absent(users.drop_first(), name);
        assert forall|i: int| 0 <= i < users.len() implies (#[trigger] users[i]).0 != name by {
            if i > 0 {
                assert(users[i] == users.drop_first()[i - 1]);
            }
        }
    }
}

/// The registered accounts; `register_user` keeps `names_unique`.
pub struct UserStore {
    pub users: Vec<User>,
}

pub open spec fn users_view(s: Seq<User>) -> Seq<(Seq<char>, Seq<char>)> {
    s.map_values(|u: User| (u.username@, u.password_hash@))
}

/// The password hash of `name`, by the first account under it.
pub open spec fn hash_of(users: Seq<(Seq<char>, Seq<char>)>, name: Seq<char>) -> Option<Seq<char>>
    decreases users.len(),
{
    if users.len() == 0 {
        None
    } else if users[0].0 == name {
        Some(users[0].1)
    } else {
        hash_of(users.drop_first(), name)
    }
}

impl View for UserStore {
    type V = Seq<(Seq<char>, Seq<char>)>;

    open spec fn view(&self) -> Seq<(Seq<char>, Seq<char>)> {
        users_view(self.users@)
    }
}

proof fn lemma_hash_of_push(
    users: Seq<(Seq<char>, Seq<char>)>,
    entry: (Seq<char>, Seq<char>),
    name: Seq<char>,
)
    requires
        hash_of(users, name) is None,
    ensures
        hash_of(users.push(entry), name) == if entry.0 == name {
            Some(entry.1)
        } else {
            None::<Seq<char>>
        },
    decreases users.len(),
{
    assert(users.push(entry)[0] == if users.len() > 0 {
        users[0]
    } else {
        entry
    });
    if users.len() > 0 {
        assert(users.push(entry).drop_first() =~= users.drop_first().push(entry));
        lemma_hash_of_push(users.drop_first(), entry, name);
        assert(users[0].0 != name);
        assert(hash_of(users.push(entry), name) == hash_of(users.push(entry).drop_first(), name));
    } else {
        let e = Seq::<(Seq<char>, Seq<char>)>::empty();
        assert(users.push(entry).drop_first() =~= e);
        assert(hash_of(e, name) is None);
    }
}

impl UserStore {
    /// A store holding `users`, as loaded from storage.
    pub fn new(users: Vec<User>) -> (r: UserStore)
        ensures
            r@ == users_view(users@),
    {
        UserStore { users }
    }

    /// The password hash stored for `name`.
    pub fn hash_for(&self, name: &str) -> (r: Option<String>)
        ensures
            match hash_of(self@, name@) {
                Some(h) => r matches Some(x) && x@ == h,
                None => r is None,
            },
    {
        let ghost us = self@;
        let mut i: usize = 0;
        assert(us.subrange(0, us.len() as int) =~= us);
        while i < self.users.len()
            invariant
                us == self@,
                i <= us.len(),
                hash_of(us, name@) == hash_of(us.subrange(i as int, us.len() as int), name@),
            decreases self.users.len() - i,
        {
            assert(us.subrange(i as int, us.len() as int).drop_first() =~= us.subrange(
                i + 1,
                us.len() as int,
            ));
            if same_text(self.users[i].username.as_str(), name) {
                return Some(self.users[i].password_hash.clone());
            }
            i = i + 1;
        }
        None
    }
}

/// Registers `username` with a hash of `password`. Fails when the name is
/// taken, or when hashing fails; the store is then unchanged.
pub fn register_user(users: &mut UserStore, username: String, password: String) -> (r: Result<
    (),
    String,
>)
    ensures
        hash_of(old(users)@, username@) is Some ==> (r matches Err(m) && m@
            == "用户已存在"@),
        r is Ok ==> hash_of(old(users)@, username@) is None && exists|h: Seq<char>|
            final(users)@ == old(users)@.push((username@, h)) && bcrypt_verdict(password@, h)
                == Some(true),
        hash_of(old(users)@, username@) is None ==> (r is Ok || (r matches Err(m) && m@
            == "密码加密失败"@)),
        r is Err ==> final(users)@ == old(users)@,
        names_unique(old(users)@) ==> names_unique(final(users)@),
{
    if users.hash_for(username.as_str()).is_some() {
        return Err(String::from_str("用户已存在"));
    }
    match hash_password(password.as_str()) {
        Ok(password_hash) => {
            let ghost h = password_hash@;
            let ghost before = users@;
            users.users.push(User { username, password_hash });
            assert(users@ =~= before.push((username@, h)));
            proof {
                lemma_hash_of_absent(before, username@);
            }
            Ok(())
        },
        Err(_) => Err(String::from_str("密码加密失败")),
    }
}

/// Checks `password` against the account of `username`.
pub fn authenticate_user(users: &UserStore, username: &str, password: &str) -> (r: Result<
    (),
    String,
>)
    ensures
        match hash_of(users@, username@) {
            None => r matches Err(m) && m@ == "用户不存在"@,
            Some(h) => match bcrypt_verdict(password@, h) {
                Some(true) => r is Ok,
                Some(false) => r matches Err(m) && m@ == "密码错误"@,
                None => r matches Err(m) && m@ == "密码验证失败"@,
            },
        },
{
    match users.hash_for(username) {
        None => Err(String::from_str("用户不存在")),
        Some(h) => match verify_password(password, h.as_str()) {
            Ok(true) => Ok(()),
            Ok(false) => Err(String::from_str("密码错误")),
            Err(_) => Err(String::from_str("密码验证失败")),
        },
    }
}

/// Why a registration request is turned away before any account is touched.
#[derive(Clone, Copy, Debug, PartialEq, Eq, Structural)]
pub enum RegistrationRejection {
    /// The password is shorter than six bytes.
    PasswordTooShort,
    /// The registration code is not the expected one.
    WrongCode,
}

/// Screens a registration request: the password must have at least six
/// bytes, and the registration code must match.
pub fn screen_registration(req: &RegisterRequest) -> (r: Result<(), RegistrationRejection>)
    ensures
        r == if (encode_utf8(req.password@).len() as usize) < 6 {
            Err(RegistrationRejection::PasswordTooShort)
        } else if req.registration_code@ != registration_code() {
            Err(RegistrationRejection::WrongCode)
        } else {
            Ok(())
        },
{
    if req.password.as_str().len() < 6 {
        return Err(RegistrationRejection::PasswordTooShort);
    }
    if !same_text(req.registration_code.as_str(), "N2S2024") {
        return Err(RegistrationRejection::WrongCode);
    }
    Ok(())
}

/// Doing `register_user` and then `authenticate_user` with the same name and
/// password succeeds whenever the registration did.
pub proof fn lemma_registered_user_authenticates(
    before: Seq<(Seq<char>, Seq<char>)>,
    after: Seq<(Seq<char>, Seq<char>)>,
    username: Seq<char>,
    password: Seq<char>,
    h: Seq<char>,
)
    requires
        hash_of(before, username) is None,
        after == before.push((username, h)),
        bcrypt_verdict(password, h) == Some(true),
    ensures
        hash_of(after, username) == Some(h),
        bcrypt_verdict(password, hash_of(after, username).unwrap()) == Some(true),
{
    lemma_hash_of_push(before, (username, h), username);
}

} // verus!
