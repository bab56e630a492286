use vstd::prelude::*;
use crate::chars::chars_to_string;
use crate::date::local_timestamp;
use crate::model::{JVal, spec_get};
use crate::num::{dec_int, push_dec_i128};
use crate::object::JsonObject;
use crate::sql::{Error, Table};

verus! {

/// The digest text that password hashing produces for a given password.
pub uninterp spec fn md5_hex_of(s: Seq<char>) -> Seq<char>;

/// Relies on md5::compute and the digest's LowerHex rendering: a 128-bit
/// digest of the input bytes, printed as exactly 32 lower-case hex digits,
/// a function of the password alone.
#[verifier::external_body]
pub fn hash_password(password: &str) -> (r: String)
    ensures
        r@ == md5_hex_of(password@),
        r@.len() == 32,
{
    format!("{:x}", md5::compute(password.as_bytes()))
}

/// Whether a password digests to the stored hash.
pub fn verify_password(password: &str, hash: &str) -> (r: bool)
    ensures
        r == (md5_hex_of(password@) == hash@),
{
    let computed = hash_password(password);
    let stored: String = hash.to_owned();
    computed == stored
}

/// A bearer token of the form `id-timestamp`, stamped with the current
/// clock reading.
pub fn generate_token(user_id: i32) -> (r: String)
    ensures
        exists|ts: int| r@ == dec_int(user_id as int) + seq!['-'] + dec_int(ts),
{
    let ts = local_timestamp();
    let mut out: Vec<char> = Vec::new();
    push_dec_i128(user_id as i128, &mut out);
    out.push('-');
    push_dec_i128(ts as i128, &mut out);
    proof {
        assert(out@ =~= dec_int(user_id as int) + seq!['-'] + dec_int(ts as int));
    }
    chars_to_string(&out)
}

/// The token claims: issuer, expiry, and the user they speak for.
#[derive(Debug)]
pub struct Claims {
    pub iss: String,
    pub exp: usize,
    pub id: i32,
}

impl Claims {
    pub fn new(id: &i32, exp: usize) -> (r: Self)
        ensures
            r.id == *id,
            r.exp == exp,
            r.iss@ == "test"@,
    {
        let mut iss: Vec<char> = Vec::new();
        iss.push('t');
        iss.push('e');
        iss.push('s');
        iss.push('t');
        proof {
            reveal_strlit("test");
            assert(iss@ =~= "test"@);
        }
        Self { iss: chars_to_string(&iss), id: *id, exp }
    }
}

/// A stored account.
#[derive(Debug)]
pub struct User {
    pub id: i32,
    pub username: String,
    pub password: String,
    pub email: String,
    pub created_at: i32,
}

impl Default for User {
    fn default() -> (r: Self)
        ensures
            r.id == 0,
            r.username@.len() == 0,
            r.password@.len() == 0,
            r.email@.len() == 0,
            r.created_at == 0,
    {
        Self {
            id: 0,
            username: String::new(),
            password: String::new(),
            email: String::new(),
            created_at: 0,
        }
    }
}

impl Table for User {
    fn id() -> &'static str {
        "id"
    }

    fn id_auto_increase() -> bool {
        true
    }

    fn columns() -> Vec<&'static str> {
        let mut v: Vec<&'static str> = Vec::new();
        v.push("id");
        v.push("username");
        v.push("password");
        v.push("email");
        v.push("created_at");
        v
    }

    fn id_value(&self) -> String {
        let mut out: Vec<char> = Vec::new();
        push_dec_i128(self.id as i128, &mut out);
        chars_to_string(&out)
    }

    fn table_name() -> &'static str {
        "user"
    }

    fn from_json_object(row: &JsonObject) -> Result<Self, Error> {
        let mut entity = Self::default();
        match row.get_i32("id") {
            Some(v) => {
                entity.id = v;
            },
            None => {
                return Err(Error::ParseError);
            },
        }
        match row.get_str("username") {
            Some(v) => {
                entity.username = v.to_owned();
            },
            None => {
                return Err(Error::ParseError);
            },
        }
        match row.get_str("password") {
            Some(v) => {
                entity.password = v.to_owned();
            },
            None => {
                return Err(Error::ParseError);
            },
        }
        match row.get_str("email") {
            Some(v) => {
                entity.email = v.to_owned();
            },
            None => {
                return Err(Error::ParseError);
            },
        }
        match row.get_i32("created_at") {
            Some(v) => {
                entity.created_at = v;
            },
            None => {
                return Err(Error::ParseError);
            },
        }
        Ok(entity)
    }

    fn to_json_object(&self) -> Result<JsonObject, Error> {
        let mut obj = JsonObject::new();
        obj.set_i32("id", self.id);
        obj.set_str("username", self.username.as_str());
        obj.set_str("password", self.password.as_str());
        obj.set_str("email", self.email.as_str());
        obj.set_i32("created_at", self.created_at);
        Ok(obj)
    }
}

/// The stock demonstration account, stamped with the current clock.
pub fn init_user() -> (r: User)
    ensures
        r.id == 1,
        r.username@ == "demo"@,
        r.password@ == md5_hex_of("demo123"@),
        r.email@.len() == 0,
{
    let ts = local_timestamp();
    #[verifier::truncate]
    let created = ts as i32;
    User {
        id: 1,
        username: String::from_str("demo"),
        password: hash_password("demo123"),
        email: String::new(),
        created_at: created,
    }
}

// ---------------------------------------------------------------------------
// The request and response shapes of the account interface.  The wire
// derives live on the serialization copies outside the verified crate.
// ---------------------------------------------------------------------------

#[derive(Debug)]
pub struct VerifyTokenRequest();

#[derive(Debug)]
pub struct LoginRequest {
    pub username: String,
    pub password: String,
    pub remember: bool,
}

#[derive(Debug)]
pub struct RegisterRequest {
    pub username: String,
    pub email: String,
    pub password: String,
    pub confirm_password: String,
}

#[derive(Debug)]
pub struct ChangePasswordRequest {
    pub old_password: String,
    pub new_password: String,
}

#[derive(Debug)]
pub struct ResetPasswordRequest {
    pub email: String,
}

#[derive(Debug)]
pub struct UserResponse {
    pub id: i32,
    pub username: String,
    pub email: String,
    pub avatar: Option<String>,
    pub created_at: String,
}

#[derive(Debug)]
pub struct LoginResponse {
    pub user: UserResponse,
    pub token: String,
}

#[derive(Debug)]
pub struct TokenResponse {
    pub token: String,
}

} // verus!
