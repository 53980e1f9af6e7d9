//! The secret that opens a session: the fingerprint of the server's key and
//! a one-shot password, passed from the server's operator to the viewer as
//! one line of text.

use rand::Rng;
use vstd::prelude::*;
use vstd::string::*;
use vstd::utf8::{encode_utf8, is_ascii_chars, is_ascii_chars_encode_utf8};
use crate::text::chars_of;
use crate::PASSLEN;

verus! {

/// `rand::OsRng`, the operating system's random number generator. It is
/// carried from where it is opened to where it is asked; nothing is read in
/// it.
#[verifier::external_type_specification]
#[verifier::external_body]
pub struct ExOsRng(rand::OsRng);

/// `rand::OsRng::new`: opens the operating system's source of randomness.
/// Nothing is known of the outcome.
#[verifier::external_body]
fn os_rng() -> (r: Result<rand::OsRng, std::io::Error>)
{
    rand::OsRng::new()
}

/// `rand::Rng::gen_ascii_chars`, asked for one item: there always is one,
/// and it is a letter `A` to `Z` or `a` to `z`, or a digit. Which one is not
/// known. The generator stops the program where the operating system
/// refuses it the bytes it asks for.
#[verifier::external_body]
fn draw_char(rng: &mut rand::OsRng) -> (r: Option<char>)
    ensures
        r is Some,
        is_password_char(r.unwrap()),
{
    rng.gen_ascii_chars().next()
}

/// `String::push`: puts one character at the end of a string.
#[verifier::external_body]
fn push_char(s: &mut String, c: char)
    ensures
        final(s)@ == old(s)@.push(c),
{
    s.push(c)
}

/// A character that a generated password is made of.
pub open spec fn is_password_char(c: char) -> bool {
    ||| 'A' <= c <= 'Z'
    ||| 'a' <= c <= 'z'
    ||| '0' <= c <= '9'
}

/// A password as the server generates it.
pub open spec fn is_password(s: Seq<char>) -> bool {
    &&& s.len() == PASSLEN
    &&& forall|i: int| 0 <= i < s.len() ==> is_password_char(#[trigger] s[i])
}

/// The line that the operator passes on: fingerprint, `-`, password.
pub open spec fn spec_session_line(fingerprint: Seq<char>, password: Seq<char>) -> Seq<char> {
    fingerprint + seq!['-'] + password
}

/// What a line typed by the viewer holds: the fingerprint before the first
/// `-` and the password behind it, where there is a `-` and the password is
/// `PASSLEN` bytes long.
pub open spec fn spec_parse_password(s: Seq<char>) -> Option<(Seq<char>, Seq<char>)> {
    match s.index_of_first('-') {
        Some(i) => if encode_utf8(s.skip(i + 1)).len() == PASSLEN {
            Some((s.take(i), s.skip(i + 1)))
        } else {
            None
        },
        None => None,
    }
}

/// The line typed for the session password holds none.
#[derive(Clone, Copy, PartialEq, Eq, Debug, Structural)]
pub struct InvalidPassword;

impl InvalidPassword {
    /// The words in which the failure is reported.
    pub fn message(&self) -> (m: &'static str)
        ensures
            m@ == "invalid password"@,
    {
        "invalid password"
    }
}

/// What the viewer needs to open a session: the fingerprint of the server's
/// public key, as typed, and the one-shot password, which is `PASSLEN` bytes
/// long.
#[derive(Debug)]
pub struct Credentials {
    fingerprint: String,
    password: String,
}

impl View for Credentials {
    type V = (Seq<char>, Seq<char>);

    /// The fingerprint and the password.
    closed spec fn view(&self) -> (Seq<char>, Seq<char>) {
        (self.fingerprint@, self.password@)
    }
}

impl Credentials {
    #[verifier::type_invariant]
    spec fn password_has_its_length(self) -> bool {
        encode_utf8(self.password@).len() == PASSLEN
    }

    /// The fingerprint of the server's public key.
    pub fn fingerprint(&self) -> (text: &str)
        ensures
            text@ == self@.0,
    {
        self.fingerprint.as_str()
    }

    /// The one-shot password.
    pub fn password(&self) -> (text: &str)
        ensures
            text@ == self@.1,
            text.spec_bytes().len() == PASSLEN,
    {
        proof {
            use_type_invariant(self);
        }
        self.password.as_str()
    }
}

/// Splits the line typed by the viewer at the first `-` into fingerprint and
/// password. It is refused where there is no `-`, or where the password is
/// not `PASSLEN` bytes long.
pub fn parse_password(input: &str) -> (r: Result<Credentials, InvalidPassword>)
    ensures
        match r {
            Ok(credentials) => spec_parse_password(input@) == Some(credentials@),
            Err(_) => spec_parse_password(input@) is None,
        },
{
    let text = chars_of(input);
    let mut i: usize = 0;
    while i < text.len() && text[i] != '-'
        invariant
            i <= text@.len(),
            forall|j: int| 0 <= j < i ==> text@[j] != '-',
        decreases text@.len() - i,
    {
        i = i + 1;
    }
    proof {
        text@.index_of_first_ensures('-');
    }
    if i == text.len() {
        assert(text@.index_of_first('-') is None) by {
            if text@.index_of_first('-') is Some {
                let k: int = text@.index_of_first('-').unwrap();
                assert(text@[k] == '-');
            }
        }
        return Err(InvalidPassword);
    }
    assert(text@.index_of_first('-') == Some(i as int)) by {
        assert(text@[i as int] == '-');
        assert(text@.contains('-'));
        let k: int = text@.index_of_first('-').unwrap();
        if i < k {
            assert(text@[i as int] != '-');
        }
    }
    let fingerprint = input.substring_char(0, i);
    let password = input.substring_char(i + 1, text.len());
    assert(fingerprint@ =~= input@.take(i as int));
    assert(password@ =~= input@.skip(i + 1));
    if password.as_bytes().len() != PASSLEN {
        return Err(InvalidPassword);
    }
    Ok(Credentials { fingerprint: fingerprint.to_owned(), password: password.to_owned() })
}

/// The line that the operator passes on to the viewer.
pub fn session_line(fingerprint: &str, password: &str) -> (line: String)
    ensures
        line@ == spec_session_line(fingerprint@, password@),
{
    let mut line = String::from_str(fingerprint);
    proof {
        reveal_strlit("-");
    }
    line.append("-");
    line.append(password);
    assert("-"@ =~= seq!['-']);
    line
}

/// Makes the password that is made of the characters drawn.
pub fn password_of(drawn: &[char]) -> (password: String)
    requires
        is_password(drawn@),
    ensures
        password@ == drawn@,
{
    let mut password = String::new();
    let mut n: usize = 0;
    while n < drawn.len()
        invariant
            n <= drawn@.len(),
            password@ == drawn@.take(n as int),
        decreases drawn@.len() - n,
    {
        push_char(&mut password, drawn[n]);
        n = n + 1;
        assert(password@ =~= drawn@.take(n as int));
    }
    assert(drawn@.take(n as int) =~= drawn@);
    password
}

/// Makes the one-shot password of a session out of what came of opening the
/// operating system's source of randomness. Where the source was opened,
/// `PASSLEN` characters are drawn from it and the password is made of them;
/// the draw hands back a character or stops the program, so that no failure
/// is returned from there. Where the source was not opened, that failure is
/// handed on as it is.
pub fn password_from(opened: Result<rand::OsRng, std::io::Error>) -> (r: Result<
    String,
    std::io::Error,
>)
    ensures
        match opened {
            Ok(_) => r matches Ok(password) && is_password(password@),
            Err(e) => r == Err::<String, std::io::Error>(e),
        },
{
    let mut rng = match opened {
        Ok(rng) => rng,
        Err(e) => {
            return Err(e);
        },
    };
    let mut drawn: Vec<char> = Vec::new();
    while drawn.len() < PASSLEN
        invariant
            drawn@.len() <= PASSLEN,
            forall|i: int| 0 <= i < drawn@.len() ==> is_password_char(#[trigger] drawn@[i]),
        decreases PASSLEN - drawn@.len(),
    {
        let c = draw_char(&mut rng).unwrap();
        drawn.push(c);
    }
    Ok(password_of(drawn.as_slice()))
}

/// Makes the one-shot password of a session out of the operating system's
/// randomness. It returns a failure where that source cannot be opened, and
/// only there: see `password_from`.
pub fn fresh_password() -> (r: Result<String, std::io::Error>)
    ensures
        r matches Ok(password) ==> is_password(password@),
{
    password_from(os_rng())
}

/// Proof that a connection gave the session's password. There is no other
/// way to one than `authenticate`.
pub struct Admission {
    granted: (),
}

/// Decides on a connection by the bytes it sent first: it is let in if and
/// only if they are the password, byte for byte.
pub fn authenticate(guess: &[u8], password: &str) -> (r: Option<Admission>)
    ensures
        r is Some <==> guess@ == password.spec_bytes(),
{
    let expected = password.as_bytes();
    if guess.len() != expected.len() {
        return None;
    }
    let mut i: usize = 0;
    while i < guess.len()
        invariant
            i <= guess@.len(),
            guess@.len() == expected@.len(),
            expected@ == password.spec_bytes(),
            forall|j: int| 0 <= j < i ==> guess@[j] == expected@[j],
        decreases guess@.len() - i,
    {
        if guess[i] != expected[i] {
            return None;
        }
        i = i + 1;
    }
    assert(guess@ =~= expected@);
    Some(Admission { granted: () })
}

/// A generated password is as long in bytes as it has characters.
pub proof fn lemma_password_bytes(password: Seq<char>)
    requires
        is_password(password),
    ensures
        encode_utf8(password).len() == PASSLEN,
{
    assert(is_ascii_chars(password)) by {
        assert forall|i: int| 0 <= i < password.len() implies '\0' <= #[trigger] password[i]
            <= '\u{7f}' by {
            assert(is_password_char(password[i]));
        }
    }
    is_ascii_chars_encode_utf8(password);
}

/// The viewer reads what the operator was given. Where the fingerprint holds
/// no `-` and the password is one that the server generates, the line made
/// of the two is split into just these two again.
pub proof fn lemma_session_line_round_trip(fingerprint: Seq<char>, password: Seq<char>)
    requires
        !fingerprint.contains('-'),
        is_password(password),
    ensures
        spec_parse_password(spec_session_line(fingerprint, password)) == Some(
            (fingerprint, password),
        ),
{
    let line = spec_session_line(fingerprint, password);
    let at: int = fingerprint.len() as int;
    line.index_of_first_ensures('-');
    assert(line[at] == '-');
    assert(line.contains('-'));
    let k: int = line.index_of_first('-').unwrap();
    if k < at {
        assert(fingerprint[k] == line[k]);
        assert(fingerprint.contains('-'));
    }
    assert(k == at);
    assert(line.take(at) =~= fingerprint);
    assert(line.skip(at + 1) =~= password);
    lemma_password_bytes(password);
}

} // verus!
