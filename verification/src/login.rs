use vstd::prelude::*;

verus! {

/// The mathematical value of a [`LoginRequest`].
pub struct LoginRequestView {
    pub is_registering: bool,
    pub nickname: Seq<char>,
    pub password: Seq<char>,
}

/// The information a client supplies to log in or to register.
pub struct LoginRequest {
    is_registering: bool,
    nickname: String,
    password: String,
}

impl View for LoginRequest {
    type V = LoginRequestView;

    closed spec fn view(&self) -> LoginRequestView {
        LoginRequestView {
            is_registering: self.is_registering,
            nickname: self.nickname@,
            password: self.password@,
        }
    }
}

impl Clone for LoginRequest {
    fn clone(&self) -> (r: Self)
        ensures
            r@ == self@,
    {
        LoginRequest {
            is_registering: self.is_registering,
            nickname: self.nickname.clone(),
            password: self.password.clone(),
        }
    }
}

impl LoginRequest {
    /// Creates a new [`LoginRequest`]: `is_registering` says whether the
    /// client also wants to create the account.
    pub fn new(is_registering: bool, nickname: String, password: String) -> (r: Self)
        ensures
            r@.is_registering == is_registering,
            r@.nickname == nickname@,
            r@.password == password@,
    {
        Self { is_registering, nickname, password }
    }

    /// Creates a [`LoginRequest`] for a client that only wants to log into
    /// an existing account.
    pub fn login(nickname: String, password: String) -> (r: Self)
        ensures
            r@.is_registering == false,
            r@.nickname == nickname@,
            r@.password == password@,
    {
        Self { is_registering: false, nickname, password }
    }

    /// Creates a [`LoginRequest`] for a client that wants to register a
    /// new account.
    pub fn register(nickname: String, password: String) -> (r: Self)
        ensures
            r@.is_registering == true,
            r@.nickname == nickname@,
            r@.password == password@,
    {
        Self { is_registering: true, nickname, password }
    }

    /// Returns whether the client wants to create a new account.
    pub fn is_registering(&self) -> (r: bool)
        ensures
            r == self@.is_registering,
    {
        self.is_registering
    }

    /// Returns the nickname the client wants to log into or register.
    pub fn nickname(&self) -> (r: &String)
        ensures
            r@ == self@.nickname,
    {
        &self.nickname
    }

    /// Returns the password the client supplied.
    pub fn password(&self) -> (r: &String)
        ensures
            r@ == self@.password,
    {
        &self.password
    }
}

} // verus!
