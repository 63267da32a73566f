use vstd::prelude::*;
use vstd::string::*;
use crate::named_node::NamedNode;

verus! {

/// Datatype of plain and language-tagged strings.
pub const XSD_STRING: &'static str = "http://www.w3.org/2001/XMLSchema#string";

/// Datatype of integers.
pub const XSD_INTEGER: &'static str = "http://www.w3.org/2001/XMLSchema#integer";

/// Datatype of booleans.
pub const XSD_BOOLEAN: &'static str = "http://www.w3.org/2001/XMLSchema#boolean";

/// Datatype of instants.
pub const XSD_DATE_TIME: &'static str = "http://www.w3.org/2001/XMLSchema#dateTime";

/// Datatype of times of day.
pub const XSD_TIME: &'static str = "http://www.w3.org/2001/XMLSchema#time";

/// What a literal is: its lexical value, the URI of its datatype and its
/// language tag, if any.
pub ghost struct LiteralModel {
    pub value: Seq<char>,
    pub datatype: Seq<char>,
    pub language: Option<Seq<char>>,
}

/// A data value: a lexical form, a datatype and an optional language tag.
#[derive(Debug, Hash)]
pub struct Literal {
    value: String,
    datatype: NamedNode,
    language: Option<String>,
}

impl View for Literal {
    type V = LiteralModel;

    closed spec fn view(&self) -> LiteralModel {
        LiteralModel {
            value: self.value@,
            datatype: self.datatype@,
            language: match self.language {
                Some(l) => Some(l@),
                None => None,
            },
        }
    }
}

/// The character of one decimal digit.
pub open spec fn digit_char(d: nat) -> char
    recommends
        d < 10,
{
    seq!['0', '1', '2', '3', '4', '5', '6', '7', '8', '9'][d as int]
}

/// The decimal digits of `n`, without leading zeros.
pub open spec fn decimal_digits(n: nat) -> Seq<char>
    decreases n,
{
    if n < 10 {
        seq![digit_char(n)]
    } else {
        decimal_digits(n / 10).push(digit_char(n % 10))
    }
}

/// The decimal text of an integer, with a leading `-` when it is negative.
pub open spec fn integer_text(i: int) -> Seq<char> {
    if i < 0 {
        seq!['-'] + decimal_digits((-i) as nat)
    } else {
        decimal_digits(i as nat)
    }
}

/// `true` or `false`.
pub open spec fn boolean_text(b: bool) -> Seq<char> {
    if b {
        seq!['t', 'r', 'u', 'e']
    } else {
        seq!['f', 'a', 'l', 's', 'e']
    }
}

/// The canonical text of a literal: `"value"` for a plain string,
/// `"value"@lang` for a language-tagged string, `"value"^^<datatype>` for any
/// other datatype.
pub open spec fn literal_text(l: LiteralModel) -> Seq<char> {
    let quoted = seq!['"'] + l.value + seq!['"'];
    if l.datatype == XSD_STRING@ {
        match l.language {
            Some(lang) => quoted + seq!['@'] + lang,
            None => quoted,
        }
    } else {
        quoted + seq!['^', '^', '<'] + l.datatype + seq!['>']
    }
}

/// The text of one decimal digit.
fn digit_str(d: u32) -> (r: &'static str)
    requires
        d < 10,
    ensures
        r@ == seq![digit_char(d as nat)],
{
    match d {
        0 => {
            proof { reveal_strlit("0"); }
            "0"
        },
        1 => {
            proof { reveal_strlit("1"); }
            "1"
        },
        2 => {
            proof { reveal_strlit("2"); }
            "2"
        },
        3 => {
            proof { reveal_strlit("3"); }
            "3"
        },
        4 => {
            proof { reveal_strlit("4"); }
            "4"
        },
        5 => {
            proof { reveal_strlit("5"); }
            "5"
        },
        6 => {
            proof { reveal_strlit("6"); }
            "6"
        },
        7 => {
            proof { reveal_strlit("7"); }
            "7"
        },
        8 => {
            proof { reveal_strlit("8"); }
            "8"
        },
        _ => {
            proof { reveal_strlit("9"); }
            "9"
        },
    }
}

/// The decimal digits of `n`.
fn decimal_text(n: u32) -> (r: String)
    ensures
        r@ == decimal_digits(n as nat),
    decreases n,
{
    let mut r = if n >= 10 {
        decimal_text(n / 10)
    } else {
        String::new()
    };
    r.append(digit_str(n % 10));
    proof {
        assert(r@ =~= decimal_digits(n as nat));
    }
    r
}

/// The decimal text of `i`.
pub fn integer_to_text(i: i32) -> (r: String)
    ensures
        r@ == integer_text(i as int),
{
    if i < 0 {
        let magnitude: u32 = (-(i as i64)) as u32;
        let mut r = String::from_str("-");
        r.append(decimal_text(magnitude).as_str());
        proof {
            reveal_strlit("-");
            assert(r@ =~= integer_text(i as int));
        }
        r
    } else {
        decimal_text(i as u32)
    }
}

impl Literal {
    /// A plain string literal: datatype `xsd:string`, no language tag.
    pub fn new_simple_literal(value: &str) -> (r: Literal)
        ensures
            r@ == (LiteralModel { value: value@, datatype: XSD_STRING@, language: None }),
    {
        Literal {
            value: value.to_string(),
            datatype: NamedNode::new_unchecked(XSD_STRING),
            language: None,
        }
    }

    /// A literal of the given datatype, without language tag.
    pub fn new_typed_literal(value: &str, datatype: NamedNode) -> (r: Literal)
        ensures
            r@ == (LiteralModel { value: value@, datatype: datatype@, language: None }),
    {
        Literal { value: value.to_string(), datatype, language: None }
    }

    /// A language-tagged string: datatype `xsd:string` and the given tag,
    /// taken as it is.
    pub fn new_language_tagged_literal(value: &str, language: &str) -> (r: Literal)
        ensures
            r@ == (LiteralModel {
                value: value@,
                datatype: XSD_STRING@,
                language: Some(language@),
            }),
    {
        Literal {
            value: value.to_string(),
            datatype: NamedNode::new_unchecked(XSD_STRING),
            language: Some(language.to_string()),
        }
    }

    /// The string literal of `value`; the same as `new_simple_literal`.
    pub fn from_str(value: &str) -> (r: Literal)
        ensures
            r@ == (LiteralModel { value: value@, datatype: XSD_STRING@, language: None }),
    {
        Literal::new_simple_literal(value)
    }

    /// The `xsd:integer` literal of `value`, in decimal.
    pub fn from_i32(value: i32) -> (r: Literal)
        ensures
            r@ == (LiteralModel {
                value: integer_text(value as int),
                datatype: XSD_INTEGER@,
                language: None,
            }),
    {
        Literal {
            value: integer_to_text(value),
            datatype: NamedNode::new_unchecked(XSD_INTEGER),
            language: None,
        }
    }

    /// The `xsd:boolean` literal `true` or `false`.
    pub fn from_bool(value: bool) -> (r: Literal)
        ensures
            r@ == (LiteralModel {
                value: boolean_text(value),
                datatype: XSD_BOOLEAN@,
                language: None,
            }),
    {
        let text = if value {
            proof { reveal_strlit("true"); }
            "true"
        } else {
            proof { reveal_strlit("false"); }
            "false"
        };
        proof {
            assert(text@ =~= boolean_text(value));
        }
        Literal {
            value: text.to_string(),
            datatype: NamedNode::new_unchecked(XSD_BOOLEAN),
            language: None,
        }
    }

    /// The lexical value.
    pub fn value(&self) -> (r: &str)
        ensures
            r@ == self@.value,
    {
        self.value.as_str()
    }

    /// The datatype.
    pub fn data_type(&self) -> (r: &NamedNode)
        ensures
            r@ == self@.datatype,
    {
        &self.datatype
    }

    /// The language tag, if any.
    pub fn language(&self) -> (r: Option<&str>)
        ensures
            match r {
                Some(l) => self@.language == Some(l@),
                None => self@.language is None,
            },
    {
        match &self.language {
            Some(l) => Some(l.as_str()),
            None => None,
        }
    }

    /// The canonical text of the literal (see `literal_text`).
    pub fn to_string(&self) -> (r: String)
        ensures
            r@ == literal_text(self@),
    {
        let mut r = String::from_str("\"");
        r.append(self.value.as_str());
        r.append("\"");
        let plain = String::from_str(XSD_STRING);
        if self.datatype.as_str().to_string() == plain {
            match &self.language {
                Some(l) => {
                    r.append("@");
                    r.append(l.as_str());
                },
                None => {},
            }
        } else {
            r.append("^^");
            r.append(self.datatype.to_string().as_str());
        }
        proof {
            reveal_strlit("\"");
            reveal_strlit("@");
            reveal_strlit("^^");
            assert(r@ =~= literal_text(self@));
        }
        r
    }
}

impl Clone for Literal {
    fn clone(&self) -> (r: Literal)
        ensures
            r == *self,
    {
        Literal {
            value: self.value.clone(),
            datatype: self.datatype.clone(),
            language: match &self.language {
                Some(l) => Some(l.clone()),
                None => None,
            },
        }
    }
}

impl PartialEq for Literal {
    fn eq(&self, other: &Literal) -> (r: bool)
        ensures
            r == (self@ == other@),
    {
        let same_language = match (&self.language, &other.language) {
            (Some(a), Some(b)) => *a == *b,
            (None, None) => true,
            _ => false,
        };
        self.value == other.value && self.datatype == other.datatype && same_language
    }
}

impl vstd::std_specs::cmp::PartialEqSpecImpl for Literal {
    open spec fn obeys_eq_spec() -> bool {
        true
    }

    open spec fn eq_spec(&self, other: &Literal) -> bool {
        self@ == other@
    }
}

impl Eq for Literal {
}

} // verus!
