//! Section kinds, their label prefixes and their families.

use vstd::prelude::*;

verus! {

/// The six kinds of labelled section.
#[derive(Debug, Clone, Copy, PartialEq, Eq, Structural)]
pub enum SectionType {
    Given,
    When,
    Then,
    AndGiven,
    AndWhen,
    AndThen,
}

/// What a section continues: every `And*` kind belongs to the family of the
/// kind it continues.
#[derive(Debug, Clone, Copy, PartialEq, Eq, Structural)]
pub enum Family {
    Given,
    When,
    Then,
}

/// The kinds in the order in which a label is tried against their prefixes.
pub open spec fn all_kinds() -> Seq<SectionType> {
    seq![
        SectionType::Given,
        SectionType::When,
        SectionType::Then,
        SectionType::AndGiven,
        SectionType::AndWhen,
        SectionType::AndThen,
    ]
}

impl Family {
    /// The family as it is written in a message.
    pub open spec fn spec_name(self) -> Seq<char> {
        match self {
            Family::Given => "given"@,
            Family::When => "when"@,
            Family::Then => "then"@,
        }
    }

    pub fn name(&self) -> (name: &'static str)
        ensures
            name@ == self.spec_name(),
    {
        match self {
            Family::Given => "given",
            Family::When => "when",
            Family::Then => "then",
        }
    }
}

impl SectionType {
    /// The label prefix that marks a section of this kind.
    pub open spec fn spec_prefix(self) -> Seq<char> {
        match self {
            SectionType::Given => "given_"@,
            SectionType::When => "when_"@,
            SectionType::Then => "then_"@,
            SectionType::AndGiven => "and_given_"@,
            SectionType::AndWhen => "and_when_"@,
            SectionType::AndThen => "and_then_"@,
        }
    }

    pub open spec fn spec_family(self) -> Family {
        match self {
            SectionType::Given | SectionType::AndGiven => Family::Given,
            SectionType::When | SectionType::AndWhen => Family::When,
            SectionType::Then | SectionType::AndThen => Family::Then,
        }
    }

    /// The kind as it is written in a message: its prefix without the
    /// separator at the end.
    pub open spec fn spec_name(self) -> Seq<char> {
        match self {
            SectionType::Given => "given"@,
            SectionType::When => "when"@,
            SectionType::Then => "then"@,
            SectionType::AndGiven => "and_given"@,
            SectionType::AndWhen => "and_when"@,
            SectionType::AndThen => "and_then"@,
        }
    }

    /// The text that stands before a section's words in a narrative.
    pub open spec fn spec_narrative_label(self) -> Seq<char> {
        match self {
            SectionType::Given => "   Given: "@,
            SectionType::When => "    When: "@,
            SectionType::Then => "    Then: "@,
            SectionType::AndGiven | SectionType::AndWhen | SectionType::AndThen => "     and: "@,
        }
    }

    /// The name of the scope in which the sections of this kind that share a
    /// parent are declared.
    pub open spec fn spec_namespace(self) -> Seq<char> {
        match self {
            SectionType::Given => "given"@,
            SectionType::When => "when"@,
            SectionType::Then => "then"@,
            SectionType::AndGiven | SectionType::AndWhen | SectionType::AndThen => "and"@,
        }
    }

    pub open spec fn spec_is_continuation(self) -> bool {
        self == SectionType::AndGiven || self == SectionType::AndWhen || self
            == SectionType::AndThen
    }

    /// Every kind, each exactly once.
    pub fn all() -> (kinds: [SectionType; 6])
        ensures
            kinds@ == all_kinds(),
    {
        let kinds = [
            SectionType::Given,
            SectionType::When,
            SectionType::Then,
            SectionType::AndGiven,
            SectionType::AndWhen,
            SectionType::AndThen,
        ];
        assert(kinds@ =~= all_kinds());
        kinds
    }

    pub fn prefix(&self) -> (p: &'static str)
        ensures
            p@ == self.spec_prefix(),
    {
        match self {
            SectionType::Given => "given_",
            SectionType::When => "when_",
            SectionType::Then => "then_",
            SectionType::AndGiven => "and_given_",
            SectionType::AndWhen => "and_when_",
            SectionType::AndThen => "and_then_",
        }
    }

    pub fn family(&self) -> (f: Family)
        ensures
            f == self.spec_family(),
    {
        match self {
            SectionType::Given | SectionType::AndGiven => Family::Given,
            SectionType::When | SectionType::AndWhen => Family::When,
            SectionType::Then | SectionType::AndThen => Family::Then,
        }
    }

    pub fn name(&self) -> (name: &'static str)
        ensures
            name@ == self.spec_name(),
    {
        match self {
            SectionType::Given => "given",
            SectionType::When => "when",
            SectionType::Then => "then",
            SectionType::AndGiven => "and_given",
            SectionType::AndWhen => "and_when",
            SectionType::AndThen => "and_then",
        }
    }

    pub fn narrative_label(&self) -> (label: &'static str)
        ensures
            label@ == self.spec_narrative_label(),
    {
        match self {
            SectionType::Given => "   Given: ",
            SectionType::When => "    When: ",
            SectionType::Then => "    Then: ",
            SectionType::AndGiven | SectionType::AndWhen | SectionType::AndThen => "     and: ",
        }
    }

    pub fn namespace(&self) -> (name: &'static str)
        ensures
            name@ == self.spec_namespace(),
    {
        match self {
            SectionType::Given => "given",
            SectionType::When => "when",
            SectionType::Then => "then",
            SectionType::AndGiven | SectionType::AndWhen | SectionType::AndThen => "and",
        }
    }

    pub fn is_continuation(&self) -> (b: bool)
        ensures
            b == self.spec_is_continuation(),
    {
        match self {
            SectionType::AndGiven | SectionType::AndWhen | SectionType::AndThen => true,
            _ => false,
        }
    }
}

} // verus!
