//! The schema registry: declarative descriptions of commands, their flags,
//! positional arguments, value kinds and mutual-exclusion groups.
//!
//! A schema is built once at startup and is immutable afterwards; every
//! parse invocation only reads it.

use vstd::prelude::*;

verus! {

/// How many value tokens an argument consumes.
#[derive(Clone, Copy, Debug, PartialEq, Eq, Structural)]
pub enum Arity {
    /// Exactly this many value tokens; `Exact(0)` is a boolean switch.
    Exact(usize),
    /// One or more value tokens (greedy).
    AtLeastOne,
}

/// The kind of value an argument carries; the validator checks every raw
/// bound value against its argument's kind.
#[derive(Clone, Debug, PartialEq, Eq)]
pub enum ValueKind {
    /// Any string.
    Text,
    /// A path; accepted as an arbitrary string by this engine.
    PathName,
    /// A non-empty string of decimal digits.
    Integer,
    /// A `key=value` pair: the raw string must contain `=`.
    KeyValue,
    /// Membership in a closed set of allowed strings.
    Choice(Vec<String>),
}

/// One declared argument of a command: a flag (`--name` / `-n`) or a
/// positional argument. Immutable once registered.
#[derive(Clone, Debug, PartialEq, Eq)]
pub struct ArgSpec {
    /// Unique name within the owning command; bindings are keyed by it.
    pub name: String,
    /// Long alias, matched against `--<long>` tokens. `None` for positionals.
    pub long: Option<String>,
    /// Short alias, matched against `-<c>` tokens. `None` for positionals.
    pub short: Option<char>,
    /// Identified by position rather than by a flag token.
    pub positional: bool,
    /// Number of value tokens consumed.
    pub arity: Arity,
    /// What the validator requires of each raw bound value.
    pub kind: ValueKind,
    /// Must be bound from input tokens; a default never satisfies this.
    pub required: bool,
    /// Repeated occurrences accumulate in order; otherwise the last wins.
    pub repeatable: bool,
    /// Bound after validation when no input token bound the argument.
    pub default: Option<Vec<String>>,
}

/// A mutual-exclusion group: of the named arguments at most one (exactly
/// one, if required) may be bound from input tokens.
#[derive(Clone, Debug, PartialEq, Eq)]
pub struct GroupSpec {
    /// Names of member [`ArgSpec`]s of the owning command.
    pub members: Vec<String>,
    /// Exactly one member must be bound, rather than at most one.
    pub required: bool,
}

/// A named command or subcommand: its arguments, its mutual-exclusion
/// groups and its child commands.
#[derive(Debug, PartialEq, Eq)]
pub struct CommandSpec {
    pub name: String,
    /// Declared arguments, in declaration order.
    pub args: Vec<ArgSpec>,
    /// Mutual-exclusion groups over `args`.
    pub groups: Vec<GroupSpec>,
    /// Child subcommands.
    pub children: Vec<CommandSpec>,
}

impl Arity {
    /// The least number of value tokens that satisfies this arity.
    pub open spec fn spec_min(self) -> nat {
        match self {
            Arity::Exact(n) => n as nat,
            Arity::AtLeastOne => 1,
        }
    }

    /// Executable form of [`Arity::spec_min`].
    pub fn min_values(&self) -> (r: usize)
        ensures
            r == self.spec_min(),
    {
        match self {
            Arity::Exact(n) => *n,
            Arity::AtLeastOne => 1,
        }
    }

    /// Whether this arity consumes no value tokens at all.
    pub open spec fn spec_is_switch(self) -> bool {
        self == Arity::Exact(0usize)
    }

    /// Executable form of [`Arity::spec_is_switch`].
    pub fn is_switch(&self) -> (r: bool)
        ensures
            r == self.spec_is_switch(),
    {
        match self {
            Arity::Exact(n) => *n == 0,
            Arity::AtLeastOne => false,
        }
    }
}

/// Index of the first flag (non-positional) argument whose long alias reads
/// `name`, scanning from `i`.
pub open spec fn find_long_from(args: Seq<ArgSpec>, name: Seq<char>, i: int) -> Option<int>
    decreases args.len() - i,
{
    if i < 0 || i >= args.len() {
        None
    } else if !args[i].positional && args[i].long is Some && args[i].long.unwrap()@ == name {
        Some(i)
    } else {
        find_long_from(args, name, i + 1)
    }
}

/// Index of the first flag argument whose short alias is the letter `c`,
/// scanning from `i`.
pub open spec fn find_short_from(args: Seq<ArgSpec>, c: char, i: int) -> Option<int>
    decreases args.len() - i,
{
    if i < 0 || i >= args.len() {
        None
    } else if !args[i].positional && args[i].short is Some && args[i].short.unwrap() == c {
        Some(i)
    } else {
        find_short_from(args, c, i + 1)
    }
}

/// Index of the first argument named `name`, scanning from `i`.
pub open spec fn find_named_from(args: Seq<ArgSpec>, name: Seq<char>, i: int) -> Option<int>
    decreases args.len() - i,
{
    if i < 0 || i >= args.len() {
        None
    } else if args[i].name@ == name {
        Some(i)
    } else {
        find_named_from(args, name, i + 1)
    }
}

impl CommandSpec {
    /// Index of the first flag argument with long alias `name`.
    pub open spec fn spec_find_long(self, name: Seq<char>) -> Option<int> {
        find_long_from(self.args@, name, 0)
    }

    /// Index of the first flag argument with short alias `c`.
    pub open spec fn spec_find_short(self, c: char) -> Option<int> {
        find_short_from(self.args@, c, 0)
    }

    /// Index of the first argument named `name`.
    pub open spec fn spec_find_named(self, name: Seq<char>) -> Option<int> {
        find_named_from(self.args@, name, 0)
    }

    /// Index of the first child command named `name`.
    pub open spec fn spec_find_child(self, name: Seq<char>) -> Option<int> {
        find_child_from(self.children@, name, 0)
    }

    /// Executable form of [`CommandSpec::spec_find_long`].
    pub fn find_long(&self, name: &String) -> (r: Option<usize>)
        ensures
            match r {
                Some(j) => self.spec_find_long(name@) == Some(j as int) && j < self.args.len(),
                None => self.spec_find_long(name@) is None,
            },
    {
        let mut i: usize = 0;
        while i < self.args.len()
            invariant
                0 <= i <= self.args.len(),
                find_long_from(self.args@, name@, 0) == find_long_from(self.args@, name@, i as int),
            decreases self.args.len() - i,
        {
            let a = &self.args[i];
            if !a.positional {
                if let Some(l) = &a.long {
                    if l.eq(name) {
                        return Some(i);
                    }
                }
            }
            i = i + 1;
        }
        None
    }

    /// Executable form of [`CommandSpec::spec_find_short`].
    pub fn find_short(&self, c: char) -> (r: Option<usize>)
        ensures
            match r {
                Some(j) => self.spec_find_short(c) == Some(j as int) && j < self.args.len(),
                None => self.spec_find_short(c) is None,
            },
    {
        let mut i: usize = 0;
        while i < self.args.len()
            invariant
                0 <= i <= self.args.len(),
                find_short_from(self.args@, c, 0) == find_short_from(self.args@, c, i as int),
            decreases self.args.len() - i,
        {
            let a = &self.args[i];
            if !a.positional {
                if let Some(s) = a.short {
                    if s == c {
                        return Some(i);
                    }
                }
            }
            i = i + 1;
        }
        None
    }

    /// Executable form of [`CommandSpec::spec_find_named`].
    pub fn find_named(&self, name: &String) -> (r: Option<usize>)
        ensures
            match r {
                Some(j) => self.spec_find_named(name@) == Some(j as int) && j < self.args.len(),
                None => self.spec_find_named(name@) is None,
            },
    {
        let mut i: usize = 0;
        while i < self.args.len()
            invariant
                0 <= i <= self.args.len(),
                find_named_from(self.args@, name@, 0) == find_named_from(self.args@, name@, i as int),
            decreases self.args.len() - i,
        {
            if self.args[i].name.eq(name) {
                return Some(i);
            }
            i = i + 1;
        }
        None
    }

    /// Executable form of [`CommandSpec::spec_find_child`].
    pub fn find_child(&self, name: &String) -> (r: Option<usize>)
        ensures
            match r {
                Some(j) => self.spec_find_child(name@) == Some(j as int) && j < self.children.len(),
                None => self.spec_find_child(name@) is None,
            },
    {
        let mut i: usize = 0;
        while i < self.children.len()
            invariant
                0 <= i <= self.children.len(),
                find_child_from(self.children@, name@, 0) == find_child_from(
                    self.children@,
                    name@,
                    i as int,
                ),
            decreases self.children.len() - i,
        {
            if self.children[i].name.eq(name) {
                return Some(i);
            }
            i = i + 1;
        }
        None
    }
}

/// Index of the first command named `name`, scanning from `i`.
pub open spec fn find_child_from(cs: Seq<CommandSpec>, name: Seq<char>, i: int) -> Option<int>
    decreases cs.len() - i,
{
    if i < 0 || i >= cs.len() {
        None
    } else if cs[i].name@ == name {
        Some(i)
    } else {
        find_child_from(cs, name, i + 1)
    }
}

/// A found child index lies in range and names the looked-up command.
pub proof fn lemma_find_child_props(cs: Seq<CommandSpec>, name: Seq<char>, i: int)
    requires
        0 <= i,
    ensures
        match find_child_from(cs, name, i) {
            Some(k) => i <= k < cs.len() && cs[k].name@ == name,
            None => true,
        },
    decreases cs.len() - i,
{
    if i < cs.len() && cs[i].name@ != name {
        lemma_find_child_props(cs, name, i + 1);
    }
}

/// A found argument index lies in range and carries the looked-up name.
pub proof fn lemma_find_named_props(args: Seq<ArgSpec>, name: Seq<char>, i: int)
    requires
        0 <= i,
    ensures
        match find_named_from(args, name, i) {
            Some(k) => i <= k < args.len() && args[k].name@ == name,
            None => true,
        },
    decreases args.len() - i,
{
    if i < args.len() && args[i].name@ != name {
        lemma_find_named_props(args, name, i + 1);
    }
}

} // verus!
