//! How AmberBeam proves who it is: a password, a key file with or without a
//! passphrase, or a key held by the agent.
use vstd::prelude::*;

use crate::text::{chars_of, string_of};

verus! {

/// What the user offers the server.
#[derive(Clone)]
pub enum AuthMethod {
    /// A password, also used to answer keyboard-interactive prompts.
    Password { password: String },
    /// A private key file; `passphrase` is `None` for an unencrypted key.
    KeyFile { path: String, passphrase: Option<String> },
    /// Whatever the running ssh-agent holds.
    Agent,
}

/// The translation key naming a method.
pub open spec fn spec_label_key(m: AuthMethod) -> Seq<char> {
    match m {
        AuthMethod::Password { .. } => "auth.password"@,
        AuthMethod::KeyFile { .. } => "auth.key-file"@,
        AuthMethod::Agent => "auth.agent"@,
    }
}

/// A path as it is shown: in double quotes, with a quote or a backslash in
/// it escaped by a backslash.
pub open spec fn quoted(s: Seq<char>) -> Seq<char>
    decreases s.len(),
{
    if s.len() == 0 {
        seq!['"']
    } else {
        let c = s[0];
        let rest = quoted(s.drop_first());
        if c == '"' || c == '\\' {
            seq!['\\', c] + rest
        } else {
            seq![c] + rest
        }
    }
}

/// How a method may be shown, in a log line or anywhere else: never with
/// its password or passphrase.
pub open spec fn spec_described(m: AuthMethod) -> Seq<char> {
    match m {
        AuthMethod::Password { .. } => "Password"@,
        AuthMethod::KeyFile { path, passphrase } => "KeyFile { path: \""@ + quoted(path@) + (
        if passphrase is Some {
            ", encrypted: true }"@
        } else {
            ", encrypted: false }"@
        }),
        AuthMethod::Agent => "Agent"@,
    }
}

impl AuthMethod {
    /// The translation key naming this method in the window.
    pub fn label_key(&self) -> (k: &'static str)
        ensures
            k@ == spec_label_key(*self),
    {
        match self {
            AuthMethod::Password { .. } => "auth.password",
            AuthMethod::KeyFile { .. } => "auth.key-file",
            AuthMethod::Agent => "auth.agent",
        }
    }

    /// The method as it may be shown: the kind, and for a key file its path
    /// and whether it is encrypted; never a secret.
    pub fn described(&self) -> (s: String)
        ensures
            s@ == spec_described(*self),
    {
        match self {
            AuthMethod::Password { .. } => "Password".to_string(),
            AuthMethod::KeyFile { path, passphrase } => {
                let mut v = chars_of("KeyFile { path: \"");
                let p = chars_of(path.as_str());
                let mut i: usize = p.len();
                let mut tail: Vec<char> = vec!['"'];
                assert(tail@ =~= quoted(p@.skip(i as int)));
                while i > 0
                    invariant
                        i <= p@.len(),
                        tail@ == quoted(p@.skip(i as int)),
                    decreases i,
                {
                    let c = p[i - 1];
                    let ghost before = tail@;
                    assert(p@.skip(i - 1)[0] == c);
                    assert(p@.skip(i - 1).drop_first() =~= p@.skip(i as int));
                    if c == '"' || c == '\\' {
                        tail.insert(0, c);
                        tail.insert(0, '\\');
                        assert(tail@ =~= seq!['\\', c] + before);
                    } else {
                        tail.insert(0, c);
                        assert(tail@ =~= seq![c] + before);
                    }
                    i = i - 1;
                }
                assert(p@.skip(0) =~= p@);
                crate::text::append_chars(&mut v, &tail);
                let end = if passphrase.is_some() {
                    chars_of(", encrypted: true }")
                } else {
                    chars_of(", encrypted: false }")
                };
                crate::text::append_chars(&mut v, &end);
                string_of(&v)
            },
            AuthMethod::Agent => "Agent".to_string(),
        }
    }
}

} // verus!
