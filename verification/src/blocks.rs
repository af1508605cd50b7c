//! The declaration blocks of a resource: commands, read rules, update rules.

use vstd::prelude::*;

use crate::dict::Dict;
use crate::value::Value;

verus! {

/// A set of string keys, kept in declaration order, pairwise distinct.
#[derive(Debug, Clone)]
pub struct KeySet {
    pub keys: Vec<String>,
}

impl View for KeySet {
    type V = Seq<Seq<char>>;

    open spec fn view(&self) -> Seq<Seq<char>> {
        self.keys@.map_values(|k: String| k@)
    }
}

/// The set a key sequence denotes.
pub open spec fn key_set(ks: Seq<Seq<char>>) -> Set<Seq<char>> {
    ks.to_set()
}

/// Whether the keys are pairwise distinct.
pub open spec fn keys_wf(ks: Seq<Seq<char>>) -> bool {
    forall|i: int, j: int| 0 <= i < j < ks.len() ==> ks[i] != ks[j]
}

impl KeySet {
    /// An empty key set.
    pub fn empty() -> (r: Self)
        ensures
            r@ =~= Seq::<Seq<char>>::empty(),
    {
        KeySet { keys: Vec::new() }
    }

    /// The number of keys.
    pub fn len(&self) -> (r: usize)
        ensures
            r == self@.len(),
    {
        self.keys.len()
    }

    /// Whether `k` is one of the keys.
    pub fn contains(&self, k: &String) -> (r: bool)
        ensures
            r == key_set(self@).contains(k@),
    {
        let n = self.keys.len();
        let mut i: usize = 0;
        while i < n
            invariant
                n == self@.len(),
                i <= n,
                forall|j: int| 0 <= j < i ==> self@[j] != k@,
            decreases n - i,
        {
            if self.keys[i] == *k {
                assert(self@[i as int] == k@);
                return true;
            }
            i = i + 1;
        }
        false
    }

    /// A copy with the same keys.
    pub fn duplicate(&self) -> (r: Self)
        ensures
            r@ =~= self@,
    {
        let n = self.keys.len();
        let mut keys: Vec<String> = Vec::new();
        let mut i: usize = 0;
        while i < n
            invariant
                n == self.keys@.len(),
                i <= n,
                keys@.len() == i,
                forall|j: int| 0 <= j < i ==> keys@[j]@ == self.keys@[j]@,
            decreases n - i,
        {
            keys.push(self.keys[i].clone());
            i = i + 1;
        }
        let r = KeySet { keys };
        proof {
            assert(r@ =~= self@);
        }
        r
    }
}

impl Value<Dict<Value<String>>> {
    /// A copy with the same state and entries.
    pub fn dup(&self) -> (r: Self)
        ensures
            r@ == self@,
    {
        match self {
            Value::Known(d) => Value::Known(d.duplicate()),
            Value::Null => Value::Null,
            Value::Unknown => Value::Unknown,
        }
    }
}

/// A command to run: the command line, its directory, extra environment.
#[derive(Debug, Clone)]
pub struct CmdSpec {
    pub cmd: Value<String>,
    pub dir: Value<String>,
    pub env: Value<Dict<Value<String>>>,
}

/// The view of a command block.
pub ghost struct CmdSpecV {
    pub cmd: Value<Seq<char>>,
    pub dir: Value<Seq<char>>,
    pub env: Value<Seq<(Seq<char>, Value<Seq<char>>)>>,
}

impl View for CmdSpec {
    type V = CmdSpecV;

    open spec fn view(&self) -> CmdSpecV {
        CmdSpecV { cmd: self.cmd@, dir: self.dir@, env: self.env@ }
    }
}

/// A read rule: a command whose standard output becomes an output value.
#[derive(Debug, Clone)]
pub struct ReadSpec {
    pub cmd: Value<String>,
    pub dir: Value<String>,
    pub env: Value<Dict<Value<String>>>,
    /// Strip one trailing newline from the command's output (default: strip).
    pub strip_trailing_newline: Value<bool>,
    /// Downgrade this read's failures to warnings (default: do not).
    pub faillible: Value<bool>,
}

/// The view of a read rule.
pub ghost struct ReadSpecV {
    pub cmd: Value<Seq<char>>,
    pub dir: Value<Seq<char>>,
    pub env: Value<Seq<(Seq<char>, Value<Seq<char>>)>>,
    pub strip_trailing_newline: Value<bool>,
    pub faillible: Value<bool>,
}

impl View for ReadSpec {
    type V = ReadSpecV;

    open spec fn view(&self) -> ReadSpecV {
        ReadSpecV {
            cmd: self.cmd@,
            dir: self.dir@,
            env: self.env@,
            strip_trailing_newline: self.strip_trailing_newline@,
            faillible: self.faillible@,
        }
    }
}

/// An update rule: a command, the input keys whose change triggers it, and
/// the output keys it invalidates.
#[derive(Debug, Clone)]
pub struct UpdateSpec {
    pub cmd: Value<String>,
    pub dir: Value<String>,
    pub env: Value<Dict<Value<String>>>,
    /// Input keys whose modification selects this rule; an empty or absent
    /// set is a catch-all.
    pub triggers: Value<KeySet>,
    /// Output keys marked unknown again when this rule fires.
    pub reloads: Value<KeySet>,
    /// Tri-state marker: unknown while the rule is scheduled to run during
    /// apply, null once it has run (or was never scheduled).
    pub update_triggered: Value<bool>,
}

/// The view of an update rule.
pub ghost struct UpdateSpecV {
    pub cmd: Value<Seq<char>>,
    pub dir: Value<Seq<char>>,
    pub env: Value<Seq<(Seq<char>, Value<Seq<char>>)>>,
    pub triggers: Value<Seq<Seq<char>>>,
    pub reloads: Value<Seq<Seq<char>>>,
    pub update_triggered: Value<bool>,
}

impl View for UpdateSpec {
    type V = UpdateSpecV;

    open spec fn view(&self) -> UpdateSpecV {
        UpdateSpecV {
            cmd: self.cmd@,
            dir: self.dir@,
            env: self.env@,
            triggers: self.triggers@,
            reloads: self.reloads@,
            update_triggered: self.update_triggered@,
        }
    }
}

/// The effective command line of an optional command block: the declared
/// one, or empty when the block or its command is absent.
pub open spec fn cmd_of(c: Value<CmdSpecV>) -> Seq<char> {
    match c {
        Value::Known(cs) => match cs.cmd {
            Value::Known(s) => s,
            _ => Seq::empty(),
        },
        _ => Seq::empty(),
    }
}

/// The effective directory of an optional command block.
pub open spec fn dir_of(c: Value<CmdSpecV>) -> Seq<char> {
    match c {
        Value::Known(cs) => match cs.dir {
            Value::Known(s) => s,
            _ => Seq::empty(),
        },
        _ => Seq::empty(),
    }
}

impl Value<CmdSpec> {
    /// The effective command line (empty when absent).
    pub fn cmd(&self) -> (r: &str)
        ensures
            r@ == cmd_of(self@),
    {
        proof {
            reveal_strlit("");
        }
        match self {
            Value::Known(cs) => match &cs.cmd {
                Value::Known(s) => s.as_str(),
                _ => "",
            },
            _ => "",
        }
    }

    /// The effective directory (empty when absent).
    pub fn dir(&self) -> (r: &str)
        ensures
            r@ == dir_of(self@),
    {
        proof {
            reveal_strlit("");
        }
        match self {
            Value::Known(cs) => match &cs.dir {
                Value::Known(s) => s.as_str(),
                _ => "",
            },
            _ => "",
        }
    }
}

/// The effective command line of a read rule.
pub open spec fn read_cmd_of(r: ReadSpecV) -> Seq<char> {
    match r.cmd {
        Value::Known(s) => s,
        _ => Seq::empty(),
    }
}

/// The effective directory of a read rule.
pub open spec fn read_dir_of(r: ReadSpecV) -> Seq<char> {
    match r.dir {
        Value::Known(s) => s,
        _ => Seq::empty(),
    }
}

/// Whether a read rule strips one trailing newline (default: it does).
pub open spec fn strip_of(r: ReadSpecV) -> bool {
    match r.strip_trailing_newline {
        Value::Known(b) => b,
        _ => true,
    }
}

/// Whether a read rule's failures are downgraded to warnings.
pub open spec fn faillible_of(r: ReadSpecV) -> bool {
    match r.faillible {
        Value::Known(b) => b,
        _ => false,
    }
}

impl ReadSpec {
    /// The effective command line (empty when absent).
    pub fn cmd(&self) -> (r: &str)
        ensures
            r@ == read_cmd_of(self@),
    {
        proof {
            reveal_strlit("");
        }
        match &self.cmd {
            Value::Known(s) => s.as_str(),
            _ => "",
        }
    }

    /// The effective directory (empty when absent).
    pub fn dir(&self) -> (r: &str)
        ensures
            r@ == read_dir_of(self@),
    {
        proof {
            reveal_strlit("");
        }
        match &self.dir {
            Value::Known(s) => s.as_str(),
            _ => "",
        }
    }

    /// Whether to strip one trailing newline from the command's output.
    pub fn strip_trailing_newline(&self) -> (r: bool)
        ensures
            r == strip_of(self@),
    {
        match &self.strip_trailing_newline {
            Value::Known(b) => *b,
            _ => true,
        }
    }

    /// Whether this read's failures are downgraded to warnings.
    pub fn faillible(&self) -> (r: bool)
        ensures
            r == faillible_of(self@),
    {
        match &self.faillible {
            Value::Known(b) => *b,
            _ => false,
        }
    }
}

impl ReadSpec {
    /// A copy with the same fields.
    pub fn duplicate(&self) -> (r: Self)
        ensures
            r@ == self@,
    {
        ReadSpec {
            cmd: self.cmd.dup(),
            dir: self.dir.dup(),
            env: self.env.dup(),
            strip_trailing_newline: self.strip_trailing_newline.dup(),
            faillible: self.faillible.dup(),
        }
    }
}

impl Value<ReadSpec> {
    /// A copy with the same state and fields.
    pub fn dup(&self) -> (r: Self)
        ensures
            r@ == self@,
    {
        match self {
            Value::Known(rs) => Value::Known(rs.duplicate()),
            Value::Null => Value::Null,
            Value::Unknown => Value::Unknown,
        }
    }
}

/// The effective command line of an update rule.
pub open spec fn update_cmd_of(u: UpdateSpecV) -> Seq<char> {
    match u.cmd {
        Value::Known(s) => s,
        _ => Seq::empty(),
    }
}

/// The effective directory of an update rule.
pub open spec fn update_dir_of(u: UpdateSpecV) -> Seq<char> {
    match u.dir {
        Value::Known(s) => s,
        _ => Seq::empty(),
    }
}

impl UpdateSpec {
    /// The effective command line (empty when absent).
    pub fn cmd(&self) -> (r: &str)
        ensures
            r@ == update_cmd_of(self@),
    {
        proof {
            reveal_strlit("");
        }
        match &self.cmd {
            Value::Known(s) => s.as_str(),
            _ => "",
        }
    }

    /// The effective directory (empty when absent).
    pub fn dir(&self) -> (r: &str)
        ensures
            r@ == update_dir_of(self@),
    {
        proof {
            reveal_strlit("");
        }
        match &self.dir {
            Value::Known(s) => s.as_str(),
            _ => "",
        }
    }
}

} // verus!
