//! Permission levels that gate which tools the agent may use, and a
//! permission cell shared between the interactive shell and running agents.

use std::sync::atomic::AtomicU8;
use std::sync::atomic::Ordering;
use std::sync::Arc;

use vstd::prelude::*;

use crate::text::{owned, push_str, same_text};

verus! {

/// How much the agent is allowed to do.
#[derive(Debug, Clone, Copy, PartialEq, Eq, Structural)]
pub enum Permission {
    NoTools,
    Read,
    Ask,
    Write,
}

/// The colour in which the prompt shows a permission's indicator.
#[derive(Debug, Clone, Copy, PartialEq, Eq, Structural)]
pub enum IndicatorColor {
    Green,
    Yellow,
    Magenta,
    Red,
}

/// The level that follows `p` when the user cycles with Shift+Tab:
/// none, read, ask, write, and back to none.
pub open spec fn next_level(p: Permission) -> Permission {
    match p {
        Permission::NoTools => Permission::Read,
        Permission::Read => Permission::Ask,
        Permission::Ask => Permission::Write,
        Permission::Write => Permission::NoTools,
    }
}

/// Whether a session at level `level` may use a tool that needs `required`.
pub open spec fn level_allows(level: Permission, required: Permission) -> bool {
    match level {
        Permission::NoTools => required == Permission::NoTools,
        Permission::Read => required == Permission::NoTools || required == Permission::Read,
        Permission::Ask | Permission::Write => true,
    }
}

/// The byte under which a level is kept in a shared cell.
pub open spec fn level_code(p: Permission) -> u8 {
    match p {
        Permission::NoTools => 0,
        Permission::Read => 1,
        Permission::Ask => 2,
        Permission::Write => 3,
    }
}

/// The level a stored byte stands for; bytes that no level uses read as none.
pub open spec fn level_of_code(v: u8) -> Permission {
    if v == 1 {
        Permission::Read
    } else if v == 2 {
        Permission::Ask
    } else if v == 3 {
        Permission::Write
    } else {
        Permission::NoTools
    }
}

/// The lower-case name of a level.
pub open spec fn level_name(p: Permission) -> Seq<char> {
    match p {
        Permission::NoTools => "none"@,
        Permission::Read => "read"@,
        Permission::Ask => "ask"@,
        Permission::Write => "write"@,
    }
}

/// The one-letter indicator of a level shown in the prompt.
pub open spec fn level_indicator(p: Permission) -> Seq<char> {
    match p {
        Permission::NoTools => "n"@,
        Permission::Read => "r"@,
        Permission::Ask => "a"@,
        Permission::Write => "w"@,
    }
}

/// The level that a (lower-cased) name or indicator selects, if any.
pub open spec fn level_named(name: Seq<char>) -> Option<Permission> {
    if name == "none"@ || name == "n"@ {
        Some(Permission::NoTools)
    } else if name == "read"@ || name == "r"@ {
        Some(Permission::Read)
    } else if name == "ask"@ || name == "a"@ {
        Some(Permission::Ask)
    } else if name == "write"@ || name == "w"@ {
        Some(Permission::Write)
    } else {
        None
    }
}

/// The message that rejects an unknown permission name.
pub open spec fn invalid_level_message(name: Seq<char>) -> Seq<char> {
    "invalid permission mode '"@ + name + "': expected 'none', 'read', 'ask', or 'write'"@
}

/// What std's `str::to_lowercase` returns for a string: its Unicode
/// lower-case mapping.
pub uninterp spec fn lowercase(s: Seq<char>) -> Seq<char>;

/// Trusted: calls `str::to_lowercase`. Its result depends on the argument
/// alone and is named `lowercase`; nothing more of the Unicode mapping is
/// stated.
#[verifier::external_body]
fn to_lowercase(s: &str) -> (r: String)
    ensures
        r@ == lowercase(s@),
{
    s.to_lowercase()
}

impl Permission {
    pub fn cycle_next(self) -> (r: Permission)
        ensures
            r == next_level(self),
    {
        match self {
            Permission::NoTools => Permission::Read,
            Permission::Read => Permission::Ask,
            Permission::Ask => Permission::Write,
            Permission::Write => Permission::NoTools,
        }
    }

    pub fn indicator(self) -> (r: &'static str)
        ensures
            r@ == level_indicator(self),
    {
        match self {
            Permission::NoTools => "n",
            Permission::Read => "r",
            Permission::Ask => "a",
            Permission::Write => "w",
        }
    }

    pub fn indicator_color(self) -> (r: IndicatorColor)
        ensures
            r == (match self {
                Permission::NoTools => IndicatorColor::Green,
                Permission::Read => IndicatorColor::Yellow,
                Permission::Ask => IndicatorColor::Magenta,
                Permission::Write => IndicatorColor::Red,
            }),
    {
        match self {
            Permission::NoTools => IndicatorColor::Green,
            Permission::Read => IndicatorColor::Yellow,
            Permission::Ask => IndicatorColor::Magenta,
            Permission::Write => IndicatorColor::Red,
        }
    }

    /// Returns true if this permission level allows using a tool that requires
    /// `required`. Ask and Write both allow all tools; Read allows Read and
    /// NoTools; NoTools allows only NoTools.
    pub fn allows(self, required: Permission) -> (r: bool)
        ensures
            r == level_allows(self, required),
    {
        match self {
            Permission::NoTools => match required {
                Permission::NoTools => true,
                _ => false,
            },
            Permission::Read => match required {
                Permission::NoTools | Permission::Read => true,
                _ => false,
            },
            Permission::Ask | Permission::Write => true,
        }
    }

    /// The lower-case name of the level, as shown to the user and the model.
    pub fn to_string(&self) -> (r: String)
        ensures
            r@ == level_name(*self),
    {
        match self {
            Permission::NoTools => owned("none"),
            Permission::Read => owned("read"),
            Permission::Ask => owned("ask"),
            Permission::Write => owned("write"),
        }
    }

    /// Parses an already lower-cased name or indicator.
    pub fn from_lowercase_name(name: &str) -> (r: Result<Permission, String>)
        ensures
            match r {
                Ok(p) => level_named(name@) == Some(p),
                Err(message) => level_named(name@) is None && message@ == invalid_level_message(
                    name@,
                ),
            },
    {
        if same_text(name, "none") || same_text(name, "n") {
            Ok(Permission::NoTools)
        } else if same_text(name, "read") || same_text(name, "r") {
            Ok(Permission::Read)
        } else if same_text(name, "ask") || same_text(name, "a") {
            Ok(Permission::Ask)
        } else if same_text(name, "write") || same_text(name, "w") {
            Ok(Permission::Write)
        } else {
            let mut message = owned("invalid permission mode '");
            push_str(&mut message, name);
            push_str(&mut message, "': expected 'none', 'read', 'ask', or 'write'");
            Err(message)
        }
    }

    /// Parses a permission name or indicator, ignoring case.
    pub fn from_str(s: &str) -> (r: Result<Permission, String>)
        ensures
            match r {
                Ok(p) => level_named(lowercase(s@)) == Some(p),
                Err(message) => level_named(lowercase(s@)) is None && message@
                    == invalid_level_message(lowercase(s@)),
            },
    {
        let lower = to_lowercase(s);
        Permission::from_lowercase_name(lower.as_str())
    }

    /// The byte that stands for this level in a shared cell.
    pub fn code(self) -> (r: u8)
        ensures
            r == level_code(self),
    {
        match self {
            Permission::NoTools => 0,
            Permission::Read => 1,
            Permission::Ask => 2,
            Permission::Write => 3,
        }
    }

    /// The level that a stored byte stands for.
    pub fn from_code(v: u8) -> (r: Permission)
        ensures
            r == level_of_code(v),
    {
        if v == 1 {
            Permission::Read
        } else if v == 2 {
            Permission::Ask
        } else if v == 3 {
            Permission::Write
        } else {
            Permission::NoTools
        }
    }
}

/// A permission level shared by every clone of the cell: setting it through
/// one clone is seen by all of them. The cell holds the level's `code` in an
/// atomic byte; what a read through a shared reference finds there depends
/// on the other clones, so the contracts below say what holds of any byte
/// read, and `lemma_code_round_trip` says that reading back a stored code
/// gives its level. `first_code` records the byte the cell was created with.
#[derive(Clone)]
pub struct SharedPermission {
    inner: Arc<AtomicU8>,
    first_code: Ghost<u8>,
}

impl SharedPermission {
    /// The byte that `new` stored in the cell when it was created.
    pub closed spec fn created_code(&self) -> u8 {
        self.first_code@
    }

    /// A new cell holding the code of `initial`, so that a read before any
    /// `set` or `cycle` gives `initial` back.
    pub fn new(initial: Permission) -> (r: SharedPermission)
        ensures
            r.created_code() == level_code(initial),
            level_of_code(r.created_code()) == initial,
    {
        let code = initial.code();
        SharedPermission { inner: Arc::new(AtomicU8::new(code)), first_code: Ghost(code) }
    }

    /// The current level: the level of the byte the cell holds, which is the
    /// code last stored by `new`, `set` or `cycle` through any clone.
    pub fn get(&self) -> (r: Permission)
        ensures
            exists|v: u8| r == level_of_code(v),
    {
        let v = self.inner.load(Ordering::Relaxed);
        Permission::from_code(v)
    }

    /// Stores the code of `permission` in the cell.
    pub fn set(&self, permission: Permission) {
        let code = permission.code();
        self.inner.store(code, Ordering::Relaxed);
    }

    /// Moves the shared level one step along the cycle and returns the new
    /// level.
    pub fn cycle(&self) -> (r: Permission)
        ensures
            exists|p: Permission| r == next_level(p),
    {
        let current = self.get();
        let next = current.cycle_next();
        self.set(next);
        next
    }
}

/// The place of a level in the order none < read < ask < write.
pub open spec fn level_rank(p: Permission) -> int {
    match p {
        Permission::NoTools => 0,
        Permission::Read => 1,
        Permission::Ask => 2,
        Permission::Write => 3,
    }
}

/// Cycling returns to the starting level after exactly four steps, passing
/// through every level once: none, read, ask, write, none.
pub proof fn lemma_cycle_has_period_four(p: Permission)
    ensures
        next_level(next_level(next_level(next_level(p)))) == p,
        next_level(p) != p,
        next_level(next_level(p)) != p,
        next_level(next_level(next_level(p))) != p,
        forall|q: Permission|
            #![trigger level_rank(q)]
            q == p || q == next_level(p) || q == next_level(next_level(p)) || q == next_level(
                next_level(next_level(p)),
            ),
{
}

/// Each level allows the tools of every level below it: allowing is
/// reflexive, and what a level allows, every higher level allows too.
pub proof fn lemma_allows_is_upward_closed(low: Permission, high: Permission, required: Permission)
    ensures
        level_allows(low, low),
        level_allows(low, required) && level_rank(low) <= level_rank(high) ==> level_allows(
            high,
            required,
        ),
        level_allows(low, Permission::NoTools),
        level_allows(Permission::Write, required),
        level_allows(Permission::Ask, required),
        level_allows(Permission::NoTools, required) ==> required == Permission::NoTools,
{
}

/// Storing a level in a shared cell and reading it back gives the same level.
pub proof fn lemma_code_round_trip(p: Permission)
    ensures
        level_of_code(level_code(p)) == p,
{
}

/// Parsing the name or the indicator of a level gives that level back.
pub proof fn lemma_names_round_trip(p: Permission)
    ensures
        level_named(level_name(p)) == Some(p),
        level_named(level_indicator(p)) == Some(p),
{
    reveal_strlit("none");
    reveal_strlit("n");
    reveal_strlit("read");
    reveal_strlit("r");
    reveal_strlit("ask");
    reveal_strlit("a");
    reveal_strlit("write");
    reveal_strlit("w");
    // Names differ in their first letter or in their length.
    assert("read"@[0] != "none"@[0] && "read"@.len() != "n"@.len());
    assert("r"@[0] != "n"@[0] && "r"@.len() != "none"@.len());
    assert("ask"@.len() != "none"@.len() && "ask"@.len() != "n"@.len());
    assert("ask"@.len() != "read"@.len() && "ask"@.len() != "r"@.len());
    assert("a"@[0] != "n"@[0] && "a"@[0] != "r"@[0]);
    assert("a"@.len() != "none"@.len() && "a"@.len() != "read"@.len());
    assert("write"@.len() != "none"@.len() && "write"@.len() != "n"@.len());
    assert("write"@.len() != "read"@.len() && "write"@.len() != "r"@.len());
    assert("write"@.len() != "ask"@.len() && "write"@.len() != "a"@.len());
    assert("w"@[0] != "n"@[0] && "w"@[0] != "r"@[0] && "w"@[0] != "a"@[0]);
    assert("w"@.len() != "none"@.len() && "w"@.len() != "read"@.len());
    assert("w"@.len() != "ask"@.len());
}

} // verus!
