use vstd::prelude::*;

verus! {

/// One attribute of a start tag: a name and a string value.
#[derive(Debug)]
pub struct Attribute {
    pub name: String,
    pub value: String,
}

/// Mathematical model of an `Attribute`.
#[verifier::ext_equal]
pub ghost struct AttrV {
    pub name: Seq<char>,
    pub value: Seq<char>,
}

impl Attribute {
    /// Model of this attribute.
    pub open spec fn model(self) -> AttrV {
        AttrV { name: self.name@, value: self.value@ }
    }
}

/// The models of a run of attributes, in order.
pub open spec fn attr_models_of(s: Seq<Attribute>) -> Seq<AttrV>
    decreases s.len(),
{
    if s.len() == 0 {
        Seq::empty()
    } else {
        attr_models_of(s.drop_last()).push(s.last().model())
    }
}

/// `attr_models_of` maps the sequence elementwise.
pub proof fn lemma_attr_models_of(s: Seq<Attribute>)
    ensures
        attr_models_of(s).len() == s.len(),
        forall|i: int| 0 <= i < s.len() ==> attr_models_of(s)[i] == s[i].model(),
    decreases s.len(),
{
    if s.len() != 0 {
        lemma_attr_models_of(s.drop_last());
    }
}

/// One event of the markup stream feeding the document builder.
#[derive(Debug)]
pub enum ParseEvent {
    StartTag { name: String, attributes: Vec<Attribute> },
    EndTag { name: String },
    Characters { text: String },
    ParseError,
}

/// Mathematical model of a `ParseEvent`.
#[verifier::ext_equal]
pub ghost enum EventV {
    StartTag { name: Seq<char>, attributes: Seq<AttrV> },
    EndTag { name: Seq<char> },
    Characters { text: Seq<char> },
    ParseError,
}

impl ParseEvent {
    /// Model of this event.
    pub open spec fn model(self) -> EventV {
        match self {
            ParseEvent::StartTag { name, attributes } => EventV::StartTag {
                name: name@,
                attributes: attr_models_of(attributes@),
            },
            ParseEvent::EndTag { name } => EventV::EndTag { name: name@ },
            ParseEvent::Characters { text } => EventV::Characters { text: text@ },
            ParseEvent::ParseError => EventV::ParseError,
        }
    }
}

/// The models of a run of events, in order.
pub open spec fn event_models_of(s: Seq<ParseEvent>) -> Seq<EventV>
    decreases s.len(),
{
    if s.len() == 0 {
        Seq::empty()
    } else {
        event_models_of(s.drop_last()).push(s.last().model())
    }
}

/// `event_models_of` maps the sequence elementwise.
pub proof fn lemma_event_models_of(s: Seq<ParseEvent>)
    ensures
        event_models_of(s).len() == s.len(),
        forall|i: int| 0 <= i < s.len() ==> event_models_of(s)[i] == s[i].model(),
    decreases s.len(),
{
    if s.len() != 0 {
        lemma_event_models_of(s.drop_last());
    }
}

/// Why a build stopped: illegal nesting or ordering of tags, a required
/// attribute absent, an attribute that does not parse, an unrecognized list
/// kind, a tag outside the supported set, or a malformed event source.
#[derive(Debug, Clone, Copy, PartialEq, Eq, Structural)]
pub enum BuildError {
    StructureError,
    MissingAttributeError,
    AttributeFormatError,
    InvalidEnumValueError,
    UnknownTagError,
    SourceParseError,
}

} // verus!
