//! The rule language as data, plus rule identity.
//!
//! These types are pure data: parsing lives in [`crate::rules`], and so does
//! rendering back to text.

use vstd::prelude::*;
use vstd::utf8::*;
use crate::model::ids::{InterfaceType, RuleId, UsbId};
use crate::text::{bytes_eq, push_bytes, lemma_keyword_bytes, str_bytes, string_from_utf8_lossy, utf8_lossy};

verus! {

/// The content of a quoted string in rule text, already unescaped.
///
/// Stored as bytes, not `String`: device names and serial numbers come from
/// descriptors the device itself supplies and are not guaranteed to be UTF-8.
/// Conversion to text happens only at the presentation boundary, with
/// [`RuleString::to_string_lossy`].
#[derive(Debug, Clone, PartialEq, Eq, Hash, Default)]
pub struct RuleString(Vec<u8>);

impl View for RuleString {
    type V = Seq<u8>;

    closed spec fn view(&self) -> Seq<u8> {
        self.0@
    }
}

impl RuleString {
    /// Wraps raw bytes.
    pub fn from_bytes(bytes: Vec<u8>) -> (r: Self)
        ensures
            r@ == bytes@,
    {
        RuleString(bytes)
    }

    /// The UTF-8 bytes of a string slice.
    pub fn from_text(s: &str) -> (r: Self)
        ensures
            r@ == str_bytes(s),
    {
        let mut v: Vec<u8> = Vec::new();
        push_bytes(&mut v, s.as_bytes());
        assert(v@ =~= str_bytes(s));
        RuleString(v)
    }

    /// The raw bytes.
    pub fn as_bytes(&self) -> (r: &[u8])
        ensures
            r@ == self@,
    {
        self.0.as_slice()
    }

    /// Text for display: invalid UTF-8 sequences become U+FFFD.
    pub fn to_string_lossy(&self) -> (r: String)
        ensures
            r@ == utf8_lossy(self@),
            valid_utf8(self@) ==> r@ == decode_utf8(self@),
    {
        string_from_utf8_lossy(self.0.as_slice())
    }

    /// A copy with the same bytes.
    pub fn duplicate(&self) -> (r: Self)
        ensures
            r@ == self@,
    {
        let v = self.0.clone();
        assert(v@ =~= self.0@);
        RuleString(v)
    }
}

/// The first word of a rule.
#[derive(Debug, Clone, Copy, PartialEq, Eq, Structural, Hash)]
pub enum RuleTarget {
    /// `allow`
    Allow,
    /// `block`
    Block,
    /// `reject`
    Reject,
    /// `match` — valid only in *queries*, never in policy text.
    Match,
}

/// The nine attribute names of the rule language.
#[derive(Debug, Clone, Copy, PartialEq, Eq, Structural, Hash)]
pub enum AttributeName {
    /// `id` — `vendor:product`.
    Id,
    /// `hash` — hash of the device descriptor.
    Hash,
    /// `parent-hash` — hash of the parent device.
    ParentHash,
    /// `name` — the product string.
    Name,
    /// `serial` — the serial number string.
    Serial,
    /// `via-port` — the port the device is attached to.
    ViaPort,
    /// `with-interface` — interface types, `cc:ss:pp`.
    WithInterface,
    /// `with-connect-type` — e.g. `hotplug`.
    WithConnectType,
    /// `label` — metadata only; never takes part in matching.
    Label,
}

/// The operators that may precede a `{ … }` set.
#[derive(Debug, Clone, Copy, PartialEq, Eq, Structural, Hash)]
pub enum SetOperator {
    /// The device set contains all listed values.
    AllOf,
    /// The device set contains at least one listed value.
    OneOf,
    /// The device set contains no listed value.
    NoneOf,
    /// The device set is exactly the listed set. Implied when absent.
    Equals,
    /// Exactly the listed set, in the listed order.
    EqualsOrdered,
    /// The device set is a subset of the listed values.
    MatchAll,
}

/// The condition names of the `if` clause.
#[derive(Debug, Clone, Copy, PartialEq, Eq, Structural, Hash)]
pub enum ConditionName {
    /// `localtime(HH:MM[:SS][-HH:MM[:SS]])`
    LocalTime,
    /// `allowed-matches(query)`
    AllowedMatches,
    /// `rule-applied` or `rule-applied(duration)`
    RuleApplied,
    /// `rule-evaluated` or `rule-evaluated(duration)`
    RuleEvaluated,
    /// `random` or `random(p)`
    Random,
    /// `true`
    True,
    /// `false`
    False,
}

impl AttributeName {
    /// Every attribute name, in the order the daemon renders them.
    pub fn all() -> (r: Vec<AttributeName>)
        ensures
            r@ == seq![
                AttributeName::Id,
                AttributeName::Serial,
                AttributeName::Name,
                AttributeName::Hash,
                AttributeName::ParentHash,
                AttributeName::ViaPort,
                AttributeName::WithInterface,
                AttributeName::WithConnectType,
                AttributeName::Label,
            ],
    {
        let r = vec![
            AttributeName::Id,
            AttributeName::Serial,
            AttributeName::Name,
            AttributeName::Hash,
            AttributeName::ParentHash,
            AttributeName::ViaPort,
            AttributeName::WithInterface,
            AttributeName::WithConnectType,
            AttributeName::Label,
        ];
        assert(r@ =~= seq![
            AttributeName::Id,
            AttributeName::Serial,
            AttributeName::Name,
            AttributeName::Hash,
            AttributeName::ParentHash,
            AttributeName::ViaPort,
            AttributeName::WithInterface,
            AttributeName::WithConnectType,
            AttributeName::Label,
        ]);
        r
    }

    /// The attributes whose values are quoted strings.
    pub open spec fn is_string_valued(self) -> bool {
        !(self is Id || self is WithInterface)
    }
}

impl SetOperator {
    /// Every operator.
    pub fn all() -> (r: Vec<SetOperator>)
        ensures
            r@ == seq![
                SetOperator::AllOf,
                SetOperator::OneOf,
                SetOperator::NoneOf,
                SetOperator::Equals,
                SetOperator::EqualsOrdered,
                SetOperator::MatchAll,
            ],
    {
        let r = vec![
            SetOperator::AllOf,
            SetOperator::OneOf,
            SetOperator::NoneOf,
            SetOperator::Equals,
            SetOperator::EqualsOrdered,
            SetOperator::MatchAll,
        ];
        assert(r@ =~= seq![
            SetOperator::AllOf,
            SetOperator::OneOf,
            SetOperator::NoneOf,
            SetOperator::Equals,
            SetOperator::EqualsOrdered,
            SetOperator::MatchAll,
        ]);
        r
    }
}

impl RuleTarget {
    /// The keyword's bytes.
    pub open spec fn kw(self) -> Seq<u8> {
        match self {
            RuleTarget::Allow => seq![97u8, 108u8, 108u8, 111u8, 119u8],
            RuleTarget::Block => seq![98u8, 108u8, 111u8, 99u8, 107u8],
            RuleTarget::Reject => seq![114u8, 101u8, 106u8, 101u8, 99u8, 116u8],
            RuleTarget::Match => seq![109u8, 97u8, 116u8, 99u8, 104u8],
        }
    }

    /// The inverse of [`RuleTarget::kw`].
    pub open spec fn spec_from_keyword(w: Seq<u8>) -> Option<RuleTarget> {
        if w == seq![97u8, 108u8, 108u8, 111u8, 119u8] {
            Some(RuleTarget::Allow)
        } else if w == seq![98u8, 108u8, 111u8, 99u8, 107u8] {
            Some(RuleTarget::Block)
        } else if w == seq![114u8, 101u8, 106u8, 101u8, 99u8, 116u8] {
            Some(RuleTarget::Reject)
        } else if w == seq![109u8, 97u8, 116u8, 99u8, 104u8] {
            Some(RuleTarget::Match)
        } else {
            None
        }
    }

    /// The keyword as written in rule text.
    pub fn keyword(self) -> (r: &'static str)
        ensures
            str_bytes(r) == self.kw(),
    {
        match self {
            RuleTarget::Allow => {
                proof {
                    reveal_strlit("allow");
                    lemma_keyword_bytes("allow", seq!['a', 'l', 'l', 'o', 'w'], seq![97u8, 108u8, 108u8, 111u8, 119u8]);
                }
                "allow"
            },
            RuleTarget::Block => {
                proof {
                    reveal_strlit("block");
                    lemma_keyword_bytes("block", seq!['b', 'l', 'o', 'c', 'k'], seq![98u8, 108u8, 111u8, 99u8, 107u8]);
                }
                "block"
            },
            RuleTarget::Reject => {
                proof {
                    reveal_strlit("reject");
                    lemma_keyword_bytes("reject", seq!['r', 'e', 'j', 'e', 'c', 't'], seq![114u8, 101u8, 106u8, 101u8, 99u8, 116u8]);
                }
                "reject"
            },
            RuleTarget::Match => {
                proof {
                    reveal_strlit("match");
                    lemma_keyword_bytes("match", seq!['m', 'a', 't', 'c', 'h'], seq![109u8, 97u8, 116u8, 99u8, 104u8]);
                }
                "match"
            },
        }
    }

    /// The inverse of [`RuleTarget::keyword`].
    pub fn from_keyword(word: &[u8]) -> (r: Option<Self>)
        ensures
            r == RuleTarget::spec_from_keyword(word@),
    {
        if bytes_eq(word, RuleTarget::Allow.keyword().as_bytes()) {
            return Some(RuleTarget::Allow);
        }
        if bytes_eq(word, RuleTarget::Block.keyword().as_bytes()) {
            return Some(RuleTarget::Block);
        }
        if bytes_eq(word, RuleTarget::Reject.keyword().as_bytes()) {
            return Some(RuleTarget::Reject);
        }
        if bytes_eq(word, RuleTarget::Match.keyword().as_bytes()) {
            return Some(RuleTarget::Match);
        }
        None
    }
}

impl AttributeName {
    /// The keyword's bytes.
    pub open spec fn kw(self) -> Seq<u8> {
        match self {
            AttributeName::Id => seq![105u8, 100u8],
            AttributeName::Hash => seq![104u8, 97u8, 115u8, 104u8],
            AttributeName::ParentHash => seq![112u8, 97u8, 114u8, 101u8, 110u8, 116u8, 45u8, 104u8, 97u8, 115u8, 104u8],
            AttributeName::Name => seq![110u8, 97u8, 109u8, 101u8],
            AttributeName::Serial => seq![115u8, 101u8, 114u8, 105u8, 97u8, 108u8],
            AttributeName::ViaPort => seq![118u8, 105u8, 97u8, 45u8, 112u8, 111u8, 114u8, 116u8],
            AttributeName::WithInterface => seq![119u8, 105u8, 116u8, 104u8, 45u8, 105u8, 110u8, 116u8, 101u8, 114u8, 102u8, 97u8, 99u8, 101u8],
            AttributeName::WithConnectType => seq![119u8, 105u8, 116u8, 104u8, 45u8, 99u8, 111u8, 110u8, 110u8, 101u8, 99u8, 116u8, 45u8, 116u8, 121u8, 112u8, 101u8],
            AttributeName::Label => seq![108u8, 97u8, 98u8, 101u8, 108u8],
        }
    }

    /// The inverse of [`AttributeName::kw`].
    pub open spec fn spec_from_keyword(w: Seq<u8>) -> Option<AttributeName> {
        if w == seq![105u8, 100u8] {
            Some(AttributeName::Id)
        } else if w == seq![104u8, 97u8, 115u8, 104u8] {
            Some(AttributeName::Hash)
        } else if w == seq![112u8, 97u8, 114u8, 101u8, 110u8, 116u8, 45u8, 104u8, 97u8, 115u8, 104u8] {
            Some(AttributeName::ParentHash)
        } else if w == seq![110u8, 97u8, 109u8, 101u8] {
            Some(AttributeName::Name)
        } else if w == seq![115u8, 101u8, 114u8, 105u8, 97u8, 108u8] {
            Some(AttributeName::Serial)
        } else if w == seq![118u8, 105u8, 97u8, 45u8, 112u8, 111u8, 114u8, 116u8] {
            Some(AttributeName::ViaPort)
        } else if w == seq![119u8, 105u8, 116u8, 104u8, 45u8, 105u8, 110u8, 116u8, 101u8, 114u8, 102u8, 97u8, 99u8, 101u8] {
            Some(AttributeName::WithInterface)
        } else if w == seq![119u8, 105u8, 116u8, 104u8, 45u8, 99u8, 111u8, 110u8, 110u8, 101u8, 99u8, 116u8, 45u8, 116u8, 121u8, 112u8, 101u8] {
            Some(AttributeName::WithConnectType)
        } else if w == seq![108u8, 97u8, 98u8, 101u8, 108u8] {
            Some(AttributeName::Label)
        } else {
            None
        }
    }

    /// The keyword as written in rule text.
    pub fn keyword(self) -> (r: &'static str)
        ensures
            str_bytes(r) == self.kw(),
    {
        match self {
            AttributeName::Id => {
                proof {
                    reveal_strlit("id");
                    lemma_keyword_bytes("id", seq!['i', 'd'], seq![105u8, 100u8]);
                }
                "id"
            },
            AttributeName::Hash => {
                proof {
                    reveal_strlit("hash");
                    lemma_keyword_bytes("hash", seq!['h', 'a', 's', 'h'], seq![104u8, 97u8, 115u8, 104u8]);
                }
                "hash"
            },
            AttributeName::ParentHash => {
                proof {
                    reveal_strlit("parent-hash");
                    lemma_keyword_bytes("parent-hash", seq!['p', 'a', 'r', 'e', 'n', 't', '-', 'h', 'a', 's', 'h'], seq![112u8, 97u8, 114u8, 101u8, 110u8, 116u8, 45u8, 104u8, 97u8, 115u8, 104u8]);
                }
                "parent-hash"
            },
            AttributeName::Name => {
                proof {
                    reveal_strlit("name");
                    lemma_keyword_bytes("name", seq!['n', 'a', 'm', 'e'], seq![110u8, 97u8, 109u8, 101u8]);
                }
                "name"
            },
            AttributeName::Serial => {
                proof {
                    reveal_strlit("serial");
                    lemma_keyword_bytes("serial", seq!['s', 'e', 'r', 'i', 'a', 'l'], seq![115u8, 101u8, 114u8, 105u8, 97u8, 108u8]);
                }
                "serial"
            },
            AttributeName::ViaPort => {
                proof {
                    reveal_strlit("via-port");
                    lemma_keyword_bytes("via-port", seq!['v', 'i', 'a', '-', 'p', 'o', 'r', 't'], seq![118u8, 105u8, 97u8, 45u8, 112u8, 111u8, 114u8, 116u8]);
                }
                "via-port"
            },
            AttributeName::WithInterface => {
                proof {
                    reveal_strlit("with-interface");
                    lemma_keyword_bytes("with-interface", seq!['w', 'i', 't', 'h', '-', 'i', 'n', 't', 'e', 'r', 'f', 'a', 'c', 'e'], seq![119u8, 105u8, 116u8, 104u8, 45u8, 105u8, 110u8, 116u8, 101u8, 114u8, 102u8, 97u8, 99u8, 101u8]);
                }
                "with-interface"
            },
            AttributeName::WithConnectType => {
                proof {
                    reveal_strlit("with-connect-type");
                    lemma_keyword_bytes("with-connect-type", seq!['w', 'i', 't', 'h', '-', 'c', 'o', 'n', 'n', 'e', 'c', 't', '-', 't', 'y', 'p', 'e'], seq![119u8, 105u8, 116u8, 104u8, 45u8, 99u8, 111u8, 110u8, 110u8, 101u8, 99u8, 116u8, 45u8, 116u8, 121u8, 112u8, 101u8]);
                }
                "with-connect-type"
            },
            AttributeName::Label => {
                proof {
                    reveal_strlit("label");
                    lemma_keyword_bytes("label", seq!['l', 'a', 'b', 'e', 'l'], seq![108u8, 97u8, 98u8, 101u8, 108u8]);
                }
                "label"
            },
        }
    }

    /// The inverse of [`AttributeName::keyword`].
    pub fn from_keyword(word: &[u8]) -> (r: Option<Self>)
        ensures
            r == AttributeName::spec_from_keyword(word@),
    {
        if bytes_eq(word, AttributeName::Id.keyword().as_bytes()) {
            return Some(AttributeName::Id);
        }
        if bytes_eq(word, AttributeName::Hash.keyword().as_bytes()) {
            return Some(AttributeName::Hash);
        }
        if bytes_eq(word, AttributeName::ParentHash.keyword().as_bytes()) {
            return Some(AttributeName::ParentHash);
        }
        if bytes_eq(word, AttributeName::Name.keyword().as_bytes()) {
            return Some(AttributeName::Name);
        }
        if bytes_eq(word, AttributeName::Serial.keyword().as_bytes()) {
            return Some(AttributeName::Serial);
        }
        if bytes_eq(word, AttributeName::ViaPort.keyword().as_bytes()) {
            return Some(AttributeName::ViaPort);
        }
        if bytes_eq(word, AttributeName::WithInterface.keyword().as_bytes()) {
            return Some(AttributeName::WithInterface);
        }
        if bytes_eq(word, AttributeName::WithConnectType.keyword().as_bytes()) {
            return Some(AttributeName::WithConnectType);
        }
        if bytes_eq(word, AttributeName::Label.keyword().as_bytes()) {
            return Some(AttributeName::Label);
        }
        None
    }
}

impl SetOperator {
    /// The keyword's bytes.
    pub open spec fn kw(self) -> Seq<u8> {
        match self {
            SetOperator::AllOf => seq![97u8, 108u8, 108u8, 45u8, 111u8, 102u8],
            SetOperator::OneOf => seq![111u8, 110u8, 101u8, 45u8, 111u8, 102u8],
            SetOperator::NoneOf => seq![110u8, 111u8, 110u8, 101u8, 45u8, 111u8, 102u8],
            SetOperator::Equals => seq![101u8, 113u8, 117u8, 97u8, 108u8, 115u8],
            SetOperator::EqualsOrdered => seq![101u8, 113u8, 117u8, 97u8, 108u8, 115u8, 45u8, 111u8, 114u8, 100u8, 101u8, 114u8, 101u8, 100u8],
            SetOperator::MatchAll => seq![109u8, 97u8, 116u8, 99u8, 104u8, 45u8, 97u8, 108u8, 108u8],
        }
    }

    /// The inverse of [`SetOperator::kw`].
    pub open spec fn spec_from_keyword(w: Seq<u8>) -> Option<SetOperator> {
        if w == seq![97u8, 108u8, 108u8, 45u8, 111u8, 102u8] {
            Some(SetOperator::AllOf)
        } else if w == seq![111u8, 110u8, 101u8, 45u8, 111u8, 102u8] {
            Some(SetOperator::OneOf)
        } else if w == seq![110u8, 111u8, 110u8, 101u8, 45u8, 111u8, 102u8] {
            Some(SetOperator::NoneOf)
        } else if w == seq![101u8, 113u8, 117u8, 97u8, 108u8, 115u8] {
            Some(SetOperator::Equals)
        } else if w == seq![101u8, 113u8, 117u8, 97u8, 108u8, 115u8, 45u8, 111u8, 114u8, 100u8, 101u8, 114u8, 101u8, 100u8] {
            Some(SetOperator::EqualsOrdered)
        } else if w == seq![109u8, 97u8, 116u8, 99u8, 104u8, 45u8, 97u8, 108u8, 108u8] {
            Some(SetOperator::MatchAll)
        } else {
            None
        }
    }

    /// The keyword as written in rule text.
    pub fn keyword(self) -> (r: &'static str)
        ensures
            str_bytes(r) == self.kw(),
    {
        match self {
            SetOperator::AllOf => {
                proof {
                    reveal_strlit("all-of");
                    lemma_keyword_bytes("all-of", seq!['a', 'l', 'l', '-', 'o', 'f'], seq![97u8, 108u8, 108u8, 45u8, 111u8, 102u8]);
                }
                "all-of"
            },
            SetOperator::OneOf => {
                proof {
                    reveal_strlit("one-of");
                    lemma_keyword_bytes("one-of", seq!['o', 'n', 'e', '-', 'o', 'f'], seq![111u8, 110u8, 101u8, 45u8, 111u8, 102u8]);
                }
                "one-of"
            },
            SetOperator::NoneOf => {
                proof {
                    reveal_strlit("none-of");
                    lemma_keyword_bytes("none-of", seq!['n', 'o', 'n', 'e', '-', 'o', 'f'], seq![110u8, 111u8, 110u8, 101u8, 45u8, 111u8, 102u8]);
                }
                "none-of"
            },
            SetOperator::Equals => {
                proof {
                    reveal_strlit("equals");
                    lemma_keyword_bytes("equals", seq!['e', 'q', 'u', 'a', 'l', 's'], seq![101u8, 113u8, 117u8, 97u8, 108u8, 115u8]);
                }
                "equals"
            },
            SetOperator::EqualsOrdered => {
                proof {
                    reveal_strlit("equals-ordered");
                    lemma_keyword_bytes("equals-ordered", seq!['e', 'q', 'u', 'a', 'l', 's', '-', 'o', 'r', 'd', 'e', 'r', 'e', 'd'], seq![101u8, 113u8, 117u8, 97u8, 108u8, 115u8, 45u8, 111u8, 114u8, 100u8, 101u8, 114u8, 101u8, 100u8]);
                }
                "equals-ordered"
            },
            SetOperator::MatchAll => {
                proof {
                    reveal_strlit("match-all");
                    lemma_keyword_bytes("match-all", seq!['m', 'a', 't', 'c', 'h', '-', 'a', 'l', 'l'], seq![109u8, 97u8, 116u8, 99u8, 104u8, 45u8, 97u8, 108u8, 108u8]);
                }
                "match-all"
            },
        }
    }

    /// The inverse of [`SetOperator::keyword`].
    pub fn from_keyword(word: &[u8]) -> (r: Option<Self>)
        ensures
            r == SetOperator::spec_from_keyword(word@),
    {
        if bytes_eq(word, SetOperator::AllOf.keyword().as_bytes()) {
            return Some(SetOperator::AllOf);
        }
        if bytes_eq(word, SetOperator::OneOf.keyword().as_bytes()) {
            return Some(SetOperator::OneOf);
        }
        if bytes_eq(word, SetOperator::NoneOf.keyword().as_bytes()) {
            return Some(SetOperator::NoneOf);
        }
        if bytes_eq(word, SetOperator::Equals.keyword().as_bytes()) {
            return Some(SetOperator::Equals);
        }
        if bytes_eq(word, SetOperator::EqualsOrdered.keyword().as_bytes()) {
            return Some(SetOperator::EqualsOrdered);
        }
        if bytes_eq(word, SetOperator::MatchAll.keyword().as_bytes()) {
            return Some(SetOperator::MatchAll);
        }
        None
    }
}

impl ConditionName {
    /// The keyword's bytes.
    pub open spec fn kw(self) -> Seq<u8> {
        match self {
            ConditionName::LocalTime => seq![108u8, 111u8, 99u8, 97u8, 108u8, 116u8, 105u8, 109u8, 101u8],
            ConditionName::AllowedMatches => seq![97u8, 108u8, 108u8, 111u8, 119u8, 101u8, 100u8, 45u8, 109u8, 97u8, 116u8, 99u8, 104u8, 101u8, 115u8],
            ConditionName::RuleApplied => seq![114u8, 117u8, 108u8, 101u8, 45u8, 97u8, 112u8, 112u8, 108u8, 105u8, 101u8, 100u8],
            ConditionName::RuleEvaluated => seq![114u8, 117u8, 108u8, 101u8, 45u8, 101u8, 118u8, 97u8, 108u8, 117u8, 97u8, 116u8, 101u8, 100u8],
            ConditionName::Random => seq![114u8, 97u8, 110u8, 100u8, 111u8, 109u8],
            ConditionName::True => seq![116u8, 114u8, 117u8, 101u8],
            ConditionName::False => seq![102u8, 97u8, 108u8, 115u8, 101u8],
        }
    }

    /// The inverse of [`ConditionName::kw`].
    pub open spec fn spec_from_keyword(w: Seq<u8>) -> Option<ConditionName> {
        if w == seq![108u8, 111u8, 99u8, 97u8, 108u8, 116u8, 105u8, 109u8, 101u8] {
            Some(ConditionName::LocalTime)
        } else if w == seq![97u8, 108u8, 108u8, 111u8, 119u8, 101u8, 100u8, 45u8, 109u8, 97u8, 116u8, 99u8, 104u8, 101u8, 115u8] {
            Some(ConditionName::AllowedMatches)
        } else if w == seq![114u8, 117u8, 108u8, 101u8, 45u8, 97u8, 112u8, 112u8, 108u8, 105u8, 101u8, 100u8] {
            Some(ConditionName::RuleApplied)
        } else if w == seq![114u8, 117u8, 108u8, 101u8, 45u8, 101u8, 118u8, 97u8, 108u8, 117u8, 97u8, 116u8, 101u8, 100u8] {
            Some(ConditionName::RuleEvaluated)
        } else if w == seq![114u8, 97u8, 110u8, 100u8, 111u8, 109u8] {
            Some(ConditionName::Random)
        } else if w == seq![116u8, 114u8, 117u8, 101u8] {
            Some(ConditionName::True)
        } else if w == seq![102u8, 97u8, 108u8, 115u8, 101u8] {
            Some(ConditionName::False)
        } else {
            None
        }
    }

    /// The keyword as written in rule text.
    pub fn keyword(self) -> (r: &'static str)
        ensures
            str_bytes(r) == self.kw(),
    {
        match self {
            ConditionName::LocalTime => {
                proof {
                    reveal_strlit("localtime");
                    lemma_keyword_bytes("localtime", seq!['l', 'o', 'c', 'a', 'l', 't', 'i', 'm', 'e'], seq![108u8, 111u8, 99u8, 97u8, 108u8, 116u8, 105u8, 109u8, 101u8]);
                }
                "localtime"
            },
            ConditionName::AllowedMatches => {
                proof {
                    reveal_strlit("allowed-matches");
                    lemma_keyword_bytes("allowed-matches", seq!['a', 'l', 'l', 'o', 'w', 'e', 'd', '-', 'm', 'a', 't', 'c', 'h', 'e', 's'], seq![97u8, 108u8, 108u8, 111u8, 119u8, 101u8, 100u8, 45u8, 109u8, 97u8, 116u8, 99u8, 104u8, 101u8, 115u8]);
                }
                "allowed-matches"
            },
            ConditionName::RuleApplied => {
                proof {
                    reveal_strlit("rule-applied");
                    lemma_keyword_bytes("rule-applied", seq!['r', 'u', 'l', 'e', '-', 'a', 'p', 'p', 'l', 'i', 'e', 'd'], seq![114u8, 117u8, 108u8, 101u8, 45u8, 97u8, 112u8, 112u8, 108u8, 105u8, 101u8, 100u8]);
                }
                "rule-applied"
            },
            ConditionName::RuleEvaluated => {
                proof {
                    reveal_strlit("rule-evaluated");
                    lemma_keyword_bytes("rule-evaluated", seq!['r', 'u', 'l', 'e', '-', 'e', 'v', 'a', 'l', 'u', 'a', 't', 'e', 'd'], seq![114u8, 117u8, 108u8, 101u8, 45u8, 101u8, 118u8, 97u8, 108u8, 117u8, 97u8, 116u8, 101u8, 100u8]);
                }
                "rule-evaluated"
            },
            ConditionName::Random => {
                proof {
                    reveal_strlit("random");
                    lemma_keyword_bytes("random", seq!['r', 'a', 'n', 'd', 'o', 'm'], seq![114u8, 97u8, 110u8, 100u8, 111u8, 109u8]);
                }
                "random"
            },
            ConditionName::True => {
                proof {
                    reveal_strlit("true");
                    lemma_keyword_bytes("true", seq!['t', 'r', 'u', 'e'], seq![116u8, 114u8, 117u8, 101u8]);
                }
                "true"
            },
            ConditionName::False => {
                proof {
                    reveal_strlit("false");
                    lemma_keyword_bytes("false", seq!['f', 'a', 'l', 's', 'e'], seq![102u8, 97u8, 108u8, 115u8, 101u8]);
                }
                "false"
            },
        }
    }

    /// The inverse of [`ConditionName::keyword`].
    pub fn from_keyword(word: &[u8]) -> (r: Option<Self>)
        ensures
            r == ConditionName::spec_from_keyword(word@),
    {
        if bytes_eq(word, ConditionName::LocalTime.keyword().as_bytes()) {
            return Some(ConditionName::LocalTime);
        }
        if bytes_eq(word, ConditionName::AllowedMatches.keyword().as_bytes()) {
            return Some(ConditionName::AllowedMatches);
        }
        if bytes_eq(word, ConditionName::RuleApplied.keyword().as_bytes()) {
            return Some(ConditionName::RuleApplied);
        }
        if bytes_eq(word, ConditionName::RuleEvaluated.keyword().as_bytes()) {
            return Some(ConditionName::RuleEvaluated);
        }
        if bytes_eq(word, ConditionName::Random.keyword().as_bytes()) {
            return Some(ConditionName::Random);
        }
        if bytes_eq(word, ConditionName::True.keyword().as_bytes()) {
            return Some(ConditionName::True);
        }
        if bytes_eq(word, ConditionName::False.keyword().as_bytes()) {
            return Some(ConditionName::False);
        }
        None
    }
}


/// `std::slice::from_ref` views one value as a slice of length one; the
/// contract claims exactly that, as its documentation says.
pub assume_specification<T>[ core::slice::from_ref::<T> ](s: &T) -> (r: &[T])
    ensures
        r@ == seq![*s],
;

/// One attribute value. Which variant is valid depends on the attribute name.
#[derive(Debug, Clone, PartialEq, Eq, Hash)]
pub enum AttributeValue {
    /// For `id`.
    UsbId(UsbId),
    /// For `with-interface`.
    Interface(InterfaceType),
    /// For every other attribute: a quoted string.
    String(RuleString),
}

/// The mathematical value of an [`AttributeValue`].
pub enum SpecValue {
    /// For `id`.
    UsbId(UsbId),
    /// For `with-interface`.
    Interface(InterfaceType),
    /// For every other attribute: the bytes of a quoted string.
    Str(Seq<u8>),
}

impl View for AttributeValue {
    type V = SpecValue;

    open spec fn view(&self) -> SpecValue {
        match self {
            AttributeValue::UsbId(id) => SpecValue::UsbId(*id),
            AttributeValue::Interface(i) => SpecValue::Interface(*i),
            AttributeValue::String(s) => SpecValue::Str(s@),
        }
    }
}

/// The views of a sequence of values.
pub open spec fn values_view(v: Seq<AttributeValue>) -> Seq<SpecValue> {
    v.map_values(|x: AttributeValue| x@)
}

/// Either one bare value, or a `{ … }` set with an optional operator.
#[derive(Debug, Clone, PartialEq, Eq, Hash)]
pub enum AttributeValues {
    /// `name "Keyboard"`
    Single(AttributeValue),
    /// `with-interface one-of { 03:00:01 03:01:01 }`. `operator` is `None`
    /// when absent in the text, which means `equals`; the absence is kept so
    /// that rendering reproduces the input.
    SetOf {
        /// The operator, if written.
        operator: Option<SetOperator>,
        /// The listed values, in order.
        values: Vec<AttributeValue>,
    },
}

/// The mathematical value of an [`AttributeValues`].
pub enum SpecValues {
    /// One bare value.
    Single(SpecValue),
    /// A set.
    SetOf {
        /// The operator, if written.
        operator: Option<SetOperator>,
        /// The listed values, in order.
        values: Seq<SpecValue>,
    },
}

impl View for AttributeValues {
    type V = SpecValues;

    open spec fn view(&self) -> SpecValues {
        match self {
            AttributeValues::Single(v) => SpecValues::Single(v@),
            AttributeValues::SetOf { operator, values } => SpecValues::SetOf {
                operator: *operator,
                values: values_view(values@),
            },
        }
    }
}

impl SpecValues {
    /// Every value, regardless of form.
    pub open spec fn all(self) -> Seq<SpecValue> {
        match self {
            SpecValues::Single(v) => seq![v],
            SpecValues::SetOf { values, .. } => values,
        }
    }
}

impl AttributeValues {
    /// Every value, regardless of form.
    pub fn as_slice(&self) -> (r: &[AttributeValue])
        ensures
            values_view(r@) == self@.all(),
    {
        match self {
            AttributeValues::Single(v) => {
                let r = core::slice::from_ref(v);
                assert(values_view(r@) =~= self@.all());
                r
            },
            AttributeValues::SetOf { values, .. } => values.as_slice(),
        }
    }
}

/// One `name value` or `name [op] { values }` pair.
#[derive(Debug, Clone, PartialEq, Eq, Hash)]
pub struct Attribute {
    /// Which attribute.
    pub name: AttributeName,
    /// Its value or values.
    pub values: AttributeValues,
}

/// The mathematical value of an [`Attribute`].
pub struct SpecAttribute {
    /// Which attribute.
    pub name: AttributeName,
    /// Its value or values.
    pub values: SpecValues,
}

impl View for Attribute {
    type V = SpecAttribute;

    open spec fn view(&self) -> SpecAttribute {
        SpecAttribute { name: self.name, values: self.values@ }
    }
}

/// The views of a sequence of attributes.
pub open spec fn attributes_view(v: Seq<Attribute>) -> Seq<SpecAttribute> {
    v.map_values(|x: Attribute| x@)
}

/// One condition, e.g. `!localtime(08:00-18:00)`.
#[derive(Debug, Clone, PartialEq, Eq, Hash)]
pub struct Condition {
    /// Preceded by `!`.
    pub negated: bool,
    /// Which condition.
    pub name: ConditionName,
    /// The text between the parentheses, verbatim, when present. The parser
    /// validates its shape for each condition; it is kept as written so that
    /// rendering reproduces it exactly.
    pub parameter: Option<Vec<u8>>,
}

/// The mathematical value of a [`Condition`].
pub struct SpecCondition {
    /// Preceded by `!`.
    pub negated: bool,
    /// Which condition.
    pub name: ConditionName,
    /// The parameter bytes, when present.
    pub parameter: Option<Seq<u8>>,
}

/// The view of an optional byte vector.
pub open spec fn opt_bytes_view(p: Option<Vec<u8>>) -> Option<Seq<u8>> {
    match p {
        Some(v) => Some(v@),
        None => None,
    }
}

impl View for Condition {
    type V = SpecCondition;

    open spec fn view(&self) -> SpecCondition {
        SpecCondition { negated: self.negated, name: self.name, parameter: opt_bytes_view(self.parameter) }
    }
}

/// The views of a sequence of conditions.
pub open spec fn conditions_view(v: Seq<Condition>) -> Seq<SpecCondition> {
    v.map_values(|x: Condition| x@)
}

/// The `if …` clause.
#[derive(Debug, Clone, PartialEq, Eq, Hash)]
pub enum ConditionClause {
    /// `if [!]condition`
    Single(Condition),
    /// `if [op] { [!]condition … }`
    SetOf {
        /// The operator, if written.
        operator: Option<SetOperator>,
        /// The listed conditions, in order.
        conditions: Vec<Condition>,
    },
}

/// The mathematical value of a [`ConditionClause`].
pub enum SpecClause {
    /// One condition.
    Single(SpecCondition),
    /// A set of conditions.
    SetOf {
        /// The operator, if written.
        operator: Option<SetOperator>,
        /// The listed conditions, in order.
        conditions: Seq<SpecCondition>,
    },
}

impl View for ConditionClause {
    type V = SpecClause;

    open spec fn view(&self) -> SpecClause {
        match self {
            ConditionClause::Single(c) => SpecClause::Single(c@),
            ConditionClause::SetOf { operator, conditions } => SpecClause::SetOf {
                operator: *operator,
                conditions: conditions_view(conditions@),
            },
        }
    }
}

/// A parsed rule, partial rule, or query.
///
/// The three differ only in which targets are allowed, which is the job of
/// the three parser entry points in [`crate::rules`]:
/// `parse_rule` wants `allow`, `block` or `reject`; `parse_partial` wants no
/// target; `parse_query` accepts any, including `match`.
#[derive(Debug, Clone, PartialEq, Eq, Hash, Default)]
pub struct Rule {
    /// The target, absent for a partial rule.
    pub target: Option<RuleTarget>,
    /// Attributes, in the order written.
    pub attributes: Vec<Attribute>,
    /// The `if` clause.
    pub condition: Option<ConditionClause>,
    /// The text after `#`, without the `#`.
    pub comment: Option<Vec<u8>>,
}

/// The mathematical value of a [`Rule`].
pub struct SpecRule {
    /// The target, absent for a partial rule.
    pub target: Option<RuleTarget>,
    /// Attributes, in the order written.
    pub attributes: Seq<SpecAttribute>,
    /// The `if` clause.
    pub condition: Option<SpecClause>,
    /// The comment bytes.
    pub comment: Option<Seq<u8>>,
}

/// The view of an optional clause.
pub open spec fn opt_clause_view(c: Option<ConditionClause>) -> Option<SpecClause> {
    match c {
        Some(c) => Some(c@),
        None => None,
    }
}

impl View for Rule {
    type V = SpecRule;

    open spec fn view(&self) -> SpecRule {
        SpecRule {
            target: self.target,
            attributes: attributes_view(self.attributes@),
            condition: opt_clause_view(self.condition),
            comment: opt_bytes_view(self.comment),
        }
    }
}

/// The index of the first attribute named `name`.
pub open spec fn attr_index_from(attrs: Seq<SpecAttribute>, name: AttributeName, i: int) -> Option<int>
    decreases attrs.len() - i,
{
    if i < 0 || i >= attrs.len() {
        None
    } else if attrs[i].name == name {
        Some(i)
    } else {
        attr_index_from(attrs, name, i + 1)
    }
}

/// The first string value among `values`.
pub open spec fn first_string_from(values: Seq<SpecValue>, i: int) -> Option<Seq<u8>>
    decreases values.len() - i,
{
    if i < 0 || i >= values.len() {
        None
    } else {
        match values[i] {
            SpecValue::Str(s) => Some(s),
            _ => first_string_from(values, i + 1),
        }
    }
}

impl SpecRule {
    /// The attribute with the given name, if the rule has it.
    pub open spec fn attribute(self, name: AttributeName) -> Option<SpecAttribute> {
        match attr_index_from(self.attributes, name, 0) {
            Some(i) => Some(self.attributes[i]),
            None => None,
        }
    }

    /// The first string value of the given attribute, if any.
    pub open spec fn string_value(self, name: AttributeName) -> Option<Seq<u8>> {
        match self.attribute(name) {
            Some(a) => first_string_from(a.values.all(), 0),
            None => None,
        }
    }
}

/// Characterizes [`attr_index_from`].
pub proof fn lemma_attr_index_from(attrs: Seq<SpecAttribute>, name: AttributeName, i: int)
    requires
        0 <= i,
    ensures
        attr_index_from(attrs, name, i) matches Some(k) ==> i <= k < attrs.len() && attrs[k].name == name
            && (forall|j: int| i <= j < k ==> attrs[j].name != name),
        attr_index_from(attrs, name, i) is None ==> (forall|j: int|
            i <= j < attrs.len() ==> attrs[j].name != name),
    decreases attrs.len() - i,
{
    if i < attrs.len() && attrs[i].name != name {
        lemma_attr_index_from(attrs, name, i + 1);
    }
}

/// The index of the first attribute named `name` in `attrs`.
pub fn attribute_position(attrs: &[Attribute], name: AttributeName) -> (r: Option<usize>)
    ensures
        r matches Some(i) ==> attr_index_from(attributes_view(attrs@), name, 0) == Some(i as int),
        r is None ==> attr_index_from(attributes_view(attrs@), name, 0) is None,
{
    let ghost v = attributes_view(attrs@);
    let mut i: usize = 0;
    while i < attrs.len()
        invariant
            i <= attrs@.len(),
            v == attributes_view(attrs@),
            attr_index_from(v, name, 0) == attr_index_from(v, name, i as int),
        decreases attrs@.len() - i,
    {
        assert(v[i as int] == attrs@[i as int]@);
        if attrs[i].name == name {
            return Some(i);
        }
        i = i + 1;
    }
    None
}

impl Rule {
    /// The index of the attribute with the given name, if the rule has it.
    pub fn attribute_index(&self, name: AttributeName) -> (r: Option<usize>)
        ensures
            r matches Some(i) ==> attr_index_from(self@.attributes, name, 0) == Some(i as int),
            r is None ==> attr_index_from(self@.attributes, name, 0) is None,
    {
        attribute_position(self.attributes.as_slice(), name)
    }

    /// The attribute with the given name, if the rule has it.
    pub fn attribute(&self, name: AttributeName) -> (r: Option<&Attribute>)
        ensures
            r matches Some(a) ==> self@.attribute(name) == Some(a@),
            r is None ==> self@.attribute(name) is None,
    {
        proof {
            lemma_attr_index_from(self@.attributes, name, 0);
        }
        match self.attribute_index(name) {
            Some(i) => Some(&self.attributes[i]),
            None => None,
        }
    }

    /// The first string value of the given attribute, if any.
    pub fn string_value(&self, name: AttributeName) -> (r: Option<&RuleString>)
        ensures
            r matches Some(s) ==> self@.string_value(name) == Some(s@),
            r is None ==> self@.string_value(name) is None,
    {
        let a = match self.attribute(name) {
            Some(a) => a,
            None => return None,
        };
        let values = a.values.as_slice();
        let ghost all = a@.values.all();
        let mut i: usize = 0;
        while i < values.len()
            invariant
                i <= values@.len(),
                values_view(values@) == all,
                all == a@.values.all(),
                self@.attribute(name) == Some(a@),
                first_string_from(all, 0) == first_string_from(all, i as int),
            decreases values@.len() - i,
        {
            match &values[i] {
                AttributeValue::String(s) => {
                    assert(all[i as int] == values@[i as int]@);
                    return Some(s);
                },
                _ => {
                    assert(all[i as int] == values@[i as int]@);
                },
            }
            i = i + 1;
        }
        None
    }
}

/// Optional byte strings are equal.
pub fn same_opt_bytes(a: &Option<Vec<u8>>, b: &Option<Vec<u8>>) -> (r: bool)
    ensures
        r == (opt_bytes_view(*a) == opt_bytes_view(*b)),
{
    match (a, b) {
        (Some(x), Some(y)) => bytes_eq(x.as_slice(), y.as_slice()),
        (None, None) => true,
        _ => false,
    }
}

fn same_operator(a: Option<SetOperator>, b: Option<SetOperator>) -> (r: bool)
    ensures
        r == (a == b),
{
    match (a, b) {
        (Some(x), Some(y)) => x == y,
        (None, None) => true,
        _ => false,
    }
}

impl AttributeValue {
    /// Equal values.
    pub fn same_as(&self, other: &AttributeValue) -> (r: bool)
        ensures
            r == (self@ == other@),
    {
        match (self, other) {
            (AttributeValue::UsbId(x), AttributeValue::UsbId(y)) => x == y,
            (AttributeValue::Interface(x), AttributeValue::Interface(y)) => x == y,
            (AttributeValue::String(x), AttributeValue::String(y)) => bytes_eq(x.as_bytes(), y.as_bytes()),
            _ => false,
        }
    }
}

fn same_value_seq(a: &Vec<AttributeValue>, b: &Vec<AttributeValue>) -> (r: bool)
    ensures
        r == (values_view(a@) == values_view(b@)),
{
    let ghost va = values_view(a@);
    let ghost vb = values_view(b@);
    if a.len() != b.len() {
        assert(va.len() != vb.len());
        return false;
    }
    let mut i: usize = 0;
    while i < a.len()
        invariant
            a@.len() == b@.len(),
            va == values_view(a@),
            vb == values_view(b@),
            i <= a@.len(),
            forall|j: int| 0 <= j < i ==> va[j] == vb[j],
        decreases a@.len() - i,
    {
        if !a[i].same_as(&b[i]) {
            assert(va[i as int] != vb[i as int]);
            return false;
        }
        i = i + 1;
    }
    assert(va =~= vb);
    true
}

impl AttributeValues {
    /// Equal value forms.
    pub fn same_as(&self, other: &AttributeValues) -> (r: bool)
        ensures
            r == (self@ == other@),
    {
        match (self, other) {
            (AttributeValues::Single(x), AttributeValues::Single(y)) => x.same_as(y),
            (
                AttributeValues::SetOf { operator: o1, values: v1 },
                AttributeValues::SetOf { operator: o2, values: v2 },
            ) => same_operator(*o1, *o2) && same_value_seq(v1, v2),
            _ => false,
        }
    }
}

impl Attribute {
    /// Equal attributes.
    pub fn same_as(&self, other: &Attribute) -> (r: bool)
        ensures
            r == (self@ == other@),
    {
        self.name == other.name && self.values.same_as(&other.values)
    }
}

impl Condition {
    /// Equal conditions.
    pub fn same_as(&self, other: &Condition) -> (r: bool)
        ensures
            r == (self@ == other@),
    {
        self.negated == other.negated && self.name == other.name && same_opt_bytes(
            &self.parameter,
            &other.parameter,
        )
    }
}

fn same_condition_seq(a: &Vec<Condition>, b: &Vec<Condition>) -> (r: bool)
    ensures
        r == (conditions_view(a@) == conditions_view(b@)),
{
    let ghost va = conditions_view(a@);
    let ghost vb = conditions_view(b@);
    if a.len() != b.len() {
        assert(va.len() != vb.len());
        return false;
    }
    let mut i: usize = 0;
    while i < a.len()
        invariant
            a@.len() == b@.len(),
            va == conditions_view(a@),
            vb == conditions_view(b@),
            i <= a@.len(),
            forall|j: int| 0 <= j < i ==> va[j] == vb[j],
        decreases a@.len() - i,
    {
        if !a[i].same_as(&b[i]) {
            assert(va[i as int] != vb[i as int]);
            return false;
        }
        i = i + 1;
    }
    assert(va =~= vb);
    true
}

impl ConditionClause {
    /// Equal clauses.
    pub fn same_as(&self, other: &ConditionClause) -> (r: bool)
        ensures
            r == (self@ == other@),
    {
        match (self, other) {
            (ConditionClause::Single(x), ConditionClause::Single(y)) => x.same_as(y),
            (
                ConditionClause::SetOf { operator: o1, conditions: c1 },
                ConditionClause::SetOf { operator: o2, conditions: c2 },
            ) => same_operator(*o1, *o2) && same_condition_seq(c1, c2),
            _ => false,
        }
    }
}

fn same_attribute_seq(a: &Vec<Attribute>, b: &Vec<Attribute>) -> (r: bool)
    ensures
        r == (attributes_view(a@) == attributes_view(b@)),
{
    let ghost va = attributes_view(a@);
    let ghost vb = attributes_view(b@);
    if a.len() != b.len() {
        assert(va.len() != vb.len());
        return false;
    }
    let mut i: usize = 0;
    while i < a.len()
        invariant
            a@.len() == b@.len(),
            va == attributes_view(a@),
            vb == attributes_view(b@),
            i <= a@.len(),
            forall|j: int| 0 <= j < i ==> va[j] == vb[j],
        decreases a@.len() - i,
    {
        if !a[i].same_as(&b[i]) {
            assert(va[i as int] != vb[i as int]);
            return false;
        }
        i = i + 1;
    }
    assert(va =~= vb);
    true
}

impl Rule {
    /// Equal rules: same target, attributes, clause and comment.
    pub fn same_as(&self, other: &Rule) -> (r: bool)
        ensures
            r == (self@ == other@),
    {
        let target = match (self.target, other.target) {
            (Some(x), Some(y)) => x == y,
            (None, None) => true,
            _ => false,
        };
        let condition = match (&self.condition, &other.condition) {
            (Some(x), Some(y)) => x.same_as(y),
            (None, None) => true,
            _ => false,
        };
        target && same_attribute_seq(&self.attributes, &other.attributes) && condition && same_opt_bytes(
            &self.comment,
            &other.comment,
        )
    }
}

/// A rule as read from the daemon, with its identity.
#[derive(Debug, Clone, PartialEq, Eq)]
pub struct RuleHandle {
    /// Volatile: valid only while the ruleset is unchanged.
    pub id: RuleId,
    /// Stable identity: the canonical text as returned by `listRules`.
    pub text: String,
    /// Evaluation-order position at the time of reading, for disambiguation.
    pub position: usize,
}

impl View for RuleHandle {
    type V = (u32, Seq<char>, usize);

    open spec fn view(&self) -> (u32, Seq<char>, usize) {
        (self.id@, self.text@, self.position)
    }
}

impl RuleHandle {
    /// A copy with the same id, text and position.
    pub fn duplicate(&self) -> (r: Self)
        ensures
            r@ == self@,
    {
        RuleHandle { id: self.id, text: self.text.clone(), position: self.position }
    }
}

/// The outcome of a safe rule removal.
#[derive(Debug, Clone, PartialEq, Eq)]
pub enum RemoveOutcome {
    /// The rule was removed.
    Removed,
    /// No rule with this text exists any more: someone else removed it.
    AlreadyGone,
    /// Several rules share this text: the user must choose.
    Ambiguous {
        /// Every rule with the same text, with its current position.
        candidates: Vec<RuleHandle>,
    },
}

} // verus!
