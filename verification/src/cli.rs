//! Typed values of the brightness-argument mini-language: scopes, actions,
//! values, resolved arguments and merged command sets, with their invariants
//! and the canonical textual form.

use vstd::prelude::*;

use crate::progressbar::{progressbar_info_valid, ProgressBarInfo};
use crate::text::{
    all_digits, chars_to_string, dec_rep, is_digit_char, known_char, lemma_dec_rep, push_dec_usize,
};

verus! {

/// Which devices a brightness command targets.
#[derive(Debug, Clone, Copy, PartialEq, Eq, Structural, Hash)]
pub enum BScope {
    Global,
    Index(usize),
}

/// The kind of mutation a command performs.
#[derive(Debug, Clone, Copy, PartialEq, Eq, Structural)]
pub enum BAction {
    Assign,
    Get,
    Inc,
    Dec,
}

/// An action together with its magnitude.  `brightness` is `None` exactly
/// for getters; for every other action it is a value in `[0, 100]`.
#[derive(Debug, Clone, Copy)]
pub struct BValue {
    pub action: BAction,
    pub brightness: Option<usize>,
}

impl PartialEq for BValue {
    fn eq(&self, other: &BValue) -> (r: bool) {
        self.action == other.action && match (self.brightness, other.brightness) {
            (Option::None, Option::None) => true,
            (Option::Some(a), Option::Some(b)) => a == b,
            _ => false,
        }
    }
}

impl vstd::std_specs::cmp::PartialEqSpecImpl for BValue {
    open spec fn obeys_eq_spec() -> bool {
        true
    }

    open spec fn eq_spec(&self, other: &BValue) -> bool {
        self.action == other.action && self.brightness == other.brightness
    }
}

impl Eq for BValue {

}

/// One resolved brightness argument: a scope and a value.
#[derive(Debug, Clone, Copy)]
pub struct BArg {
    pub scope: BScope,
    pub value: BValue,
}

impl PartialEq for BArg {
    fn eq(&self, other: &BArg) -> (r: bool) {
        self.scope == other.scope && self.value == other.value
    }
}

impl vstd::std_specs::cmp::PartialEqSpecImpl for BArg {
    open spec fn obeys_eq_spec() -> bool {
        true
    }

    open spec fn eq_spec(&self, other: &BArg) -> bool {
        self.scope == other.scope && self.value == other.value
    }
}

impl Eq for BArg {

}

impl Default for BArg {
    /// The default argument is a global getter.
    fn default() -> (r: Self)
        ensures
            r.scope == BScope::Global,
            r.value.action == BAction::Get,
            r.value.brightness is None,
    {
        BArg { scope: BScope::Global, value: BValue { action: BAction::Get, brightness: None } }
    }
}

/// The getter part of a merged command set: either every device, or an
/// ordered list of indexed scopes.
#[derive(Debug)]
pub enum Getter {
    Global,
    Many(Vec<BScope>),
}

/// A merged, deduplicated command set: an optional getter specification and
/// an ordered setter list.
#[derive(Debug)]
pub struct BArgs {
    pub getters: Option<Getter>,
    pub setters: Vec<BArg>,
}

impl Default for BArgs {
    /// With no tokens at all, the command set queries every device.
    fn default() -> (r: Self)
        ensures
            r.getters matches Some(g) && g is Global,
            r.setters@ =~= Seq::<BArg>::empty(),
    {
        BArgs { getters: Some(Getter::Global), setters: Vec::new() }
    }
}

/// A value is well formed when its magnitude is absent exactly for getters
/// and otherwise lies in `[0, 100]`.
pub open spec fn bvalue_valid(v: BValue) -> bool {
    match v.brightness {
        Some(b) => v.action != BAction::Get && b <= 100,
        None => v.action == BAction::Get,
    }
}

pub open spec fn barg_valid(a: BArg) -> bool {
    bvalue_valid(a.value)
}

/// A well-formed setter list: every entry is a valid non-getter, scopes are
/// pairwise distinct, and a global setter can only stand last.
pub open spec fn setters_valid(s: Seq<BArg>) -> bool {
    &&& forall|i: int|
        0 <= i < s.len() ==> barg_valid(#[trigger] s[i]) && s[i].value.action != BAction::Get
    &&& forall|i: int, j: int| 0 <= i < j < s.len() ==> s[i].scope != s[j].scope
    &&& forall|i: int| 0 <= i < s.len() && #[trigger] s[i].scope is Global ==> i == s.len() - 1
}

/// A well-formed getter specification: an index list is non-empty and holds
/// pairwise distinct indexed scopes only.
pub open spec fn getter_valid(g: &Option<Getter>) -> bool {
    match g {
        Option::None => true,
        Option::Some(Getter::Global) => true,
        Option::Some(Getter::Many(v)) => {
            &&& v@.len() > 0
            &&& forall|i: int| 0 <= i < v@.len() ==> (#[trigger] v@[i]) is Index
            &&& forall|i: int, j: int| 0 <= i < j < v@.len() ==> v@[i] != v@[j]
        },
    }
}

pub open spec fn bargs_valid(b: &BArgs) -> bool {
    getter_valid(&b.getters) && setters_valid(b.setters@)
}

/// All resolved command-line inputs of one invocation.
#[derive(Debug)]
pub struct Arguments {
    pub flag_zero: bool,
    pub progressbar_info: ProgressBarInfo,
    pub bargs: BArgs,
}

pub open spec fn arguments_valid(a: &Arguments) -> bool {
    progressbar_info_valid(&a.progressbar_info) && bargs_valid(&a.bargs)
}

/// Canonical text of a scope: `*` for global, the decimal index otherwise.
pub open spec fn scope_canon(s: BScope) -> Seq<char> {
    match s {
        BScope::Global => seq!['*'],
        BScope::Index(i) => dec_rep(i as nat),
    }
}

/// Canonical prefix of an action: `+` for increment, `-` for decrement.
pub open spec fn action_prefix(a: BAction) -> Seq<char> {
    match a {
        BAction::Inc => seq!['+'],
        BAction::Dec => seq!['-'],
        _ => Seq::<char>::empty(),
    }
}

/// Canonical text of a whole argument: `scope:prefix[magnitude]`.
pub open spec fn barg_canon(a: BArg) -> Seq<char> {
    scope_canon(a.scope) + seq![':'] + action_prefix(a.value.action) + (match a.value.brightness {
        Some(b) => dec_rep(b as nat),
        None => Seq::<char>::empty(),
    })
}

proof fn lemma_scope_canon_known(s: BScope)
    ensures
        forall|i: int| 0 <= i < scope_canon(s).len() ==> known_char(#[trigger] scope_canon(s)[i]),
{
    match s {
        BScope::Global => {
        },
        BScope::Index(n) => {
            lemma_dec_rep(n as nat);
            assert forall|i: int| 0 <= i < scope_canon(s).len() implies known_char(
                #[trigger] scope_canon(s)[i],
            ) by {
                assert(is_digit_char(dec_rep(n as nat)[i]));
            }
        },
    }
}

impl BScope {
    /// Canonical textual form of this scope.
    pub fn to_string(&self) -> (s: String)
        ensures
            s@ == scope_canon(*self),
    {
        let mut buf: Vec<char> = Vec::new();
        match self {
            BScope::Global => buf.push('*'),
            BScope::Index(i) => push_dec_usize(&mut buf, *i),
        }
        proof {
            lemma_scope_canon_known(*self);
            assert(buf@ =~= scope_canon(*self));
        }
        chars_to_string(&buf)
    }
}

impl BAction {
    /// The canonical action prefix, empty for set and get.
    pub fn prefix_str(&self) -> (s: &'static str)
        ensures
            s@ == action_prefix(*self),
    {
        proof {
            reveal_strlit("+");
            reveal_strlit("-");
            reveal_strlit("");
        }
        let r: &'static str = match self {
            BAction::Inc => "+",
            BAction::Dec => "-",
            _ => "",
        };
        proof {
            assert(r@ =~= action_prefix(*self));
        }
        r
    }
}

impl BArg {
    /// Canonical textual form of this argument, e.g. `*:50`, `2:+10`, `1:`.
    pub fn to_string(&self) -> (s: String)
        ensures
            s@ == barg_canon(*self),
    {
        let mut buf: Vec<char> = Vec::new();
        match self.scope {
            BScope::Global => buf.push('*'),
            BScope::Index(i) => push_dec_usize(&mut buf, i),
        }
        proof {
            lemma_scope_canon_known(self.scope);
            assert(buf@ =~= scope_canon(self.scope));
        }
        buf.push(':');
        match self.value.action {
            BAction::Inc => buf.push('+'),
            BAction::Dec => buf.push('-'),
            _ => {
            },
        }
        proof {
            assert(buf@ =~= scope_canon(self.scope) + seq![':'] + action_prefix(
                self.value.action,
            ));
        }
        let ghost mid = buf@;
        match self.value.brightness {
            Option::Some(b) => push_dec_usize(&mut buf, b),
            Option::None => {
            },
        }
        proof {
            if let Some(b) = self.value.brightness {
                lemma_dec_rep(b as nat);
            }
            assert(buf@ =~= barg_canon(*self));
            assert forall|i: int| 0 <= i < buf@.len() implies known_char(#[trigger] buf@[i]) by {
                lemma_scope_canon_known(self.scope);
                let sc = scope_canon(self.scope);
                let pre = action_prefix(self.value.action);
                if i < sc.len() {
                    assert(buf@[i] == sc[i]);
                } else if i < sc.len() + 1 {
                    assert(buf@[i] == ':');
                } else if i < mid.len() {
                    assert(buf@[i] == pre[i - sc.len() - 1]);
                } else {
                    if let Some(b) = self.value.brightness {
                        assert(buf@[i] == dec_rep(b as nat)[i - mid.len()]);
                        assert(is_digit_char(dec_rep(b as nat)[i - mid.len()]));
                    }
                }
            }
        }
        chars_to_string(&buf)
    }
}

} // verus!
