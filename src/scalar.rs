//! Scalar enums: tags derived from unit variants, the decoding dispatch over
//! those tags, and its error messages.
use vstd::prelude::*;

use heck::KebabCase;

verus! {

/// What heck's kebab-case conversion makes of an identifier.
pub uninterp spec fn kebab_of(s: Seq<char>) -> Seq<char>;

/// What `str::escape_default` makes of a text.
pub uninterp spec fn escaped(s: Seq<char>) -> Seq<char>;

/// Relies on `heck::KebabCase::to_kebab_case` (heck 0.3), the tag scheme
/// documents are written against: lower-case words joined by `-`, with words
/// split at underscores and non-word characters, where a lower-case letter
/// meets an upper-case one, and before the last capital of a run of capitals
/// followed by lower case (`XMLHttpRequest` gives `xml-http-request`). The
/// result depends on the text alone.
#[verifier::external_body]
fn to_kebab(s: &str) -> (r: String)
    ensures
        r@ == kebab_of(s@),
{
    s.to_kebab_case()
}

/// Relies on `str::escape_default`, collected into a `String`: the result
/// depends on the text alone.
#[verifier::external_body]
fn escape(s: &str) -> (r: String)
    ensures
        r@ == escaped(s@),
{
    s.escape_default().to_string()
}

/// An enum variant as the front end declares it.
pub struct VariantDecl {
    pub ident: String,
    /// The variant has no fields.
    pub unit: bool,
}

/// A unit variant and the tag that selects it in a document.
pub struct Variant {
    pub ident: String,
    pub name: String,
}

/// A scalar enum: its variants in declaration order.
pub struct Enum {
    pub ident: String,
    pub variants: Vec<Variant>,
}

/// The kinds of scalar that can be derived.
pub enum Scalar {
    Enum(Enum),
}

/// A variant with fields was declared.
pub struct InvalidVariantShape {
    /// Position of the variant in declaration order.
    pub at: usize,
    pub ident: String,
    pub message: String,
}

/// A scalar literal of a document.
pub enum Literal {
    Null,
    Bool(bool),
    /// An integer, as written.
    Int(String),
    /// A decimal number, as written.
    Decimal(String),
    String(String),
}

/// Why a literal does not decode to a variant.
pub enum DecodeError {
    /// The literal carries a type name; reported at the type name.
    TypeName { message: String },
    /// The literal itself is not accepted; reported at the value.
    Value { message: String },
}

pub open spec fn quoted(t: Seq<char>) -> Seq<char> {
    "`"@ + t + "`"@
}

/// Each text quoted, separated by `, `.
pub open spec fn joined(ts: Seq<Seq<char>>) -> Seq<char>
    decreases ts.len(),
{
    if ts.len() == 0 {
        Seq::empty()
    } else if ts.len() == 1 {
        quoted(ts[0])
    } else {
        joined(ts.drop_last()) + ", "@ + quoted(ts.last())
    }
}

pub open spec fn digit_char(d: nat) -> char {
    if d == 0 {
        '0'
    } else if d == 1 {
        '1'
    } else if d == 2 {
        '2'
    } else if d == 3 {
        '3'
    } else if d == 4 {
        '4'
    } else if d == 5 {
        '5'
    } else if d == 6 {
        '6'
    } else if d == 7 {
        '7'
    } else if d == 8 {
        '8'
    } else {
        '9'
    }
}

/// The decimal digits of `n`, without leading zeros.
pub open spec fn decimal(n: nat) -> Seq<char>
    decreases n,
{
    if n < 10 {
        seq![digit_char(n)]
    } else {
        decimal(n / 10) + seq![digit_char(n % 10)]
    }
}

/// The message for a string that matches no tag, given the tags as they are
/// to be displayed: all of them when there are at most three, else the
/// first two and the number of the others.
pub open spec fn expected_message(ts: Seq<Seq<char>>) -> Seq<char> {
    if ts.len() <= 3 {
        "expected one of "@ + joined(ts)
    } else {
        "expected "@ + quoted(ts[0]) + ", "@ + quoted(ts[1]) + ", or "@ + decimal(
            (ts.len() - 2) as nat,
        ) + " others"@
    }
}

pub open spec fn type_name_message(ident: Seq<char>) -> Seq<char> {
    "unexpected type name for "@ + ident
}

pub open spec fn variant_shape_message() -> Seq<char> {
    "only unit variants are allowed for DecodeScalar"@
}

fn digit(d: usize) -> (r: String)
    requires
        d < 10,
    ensures
        r@ == seq![digit_char(d as nat)],
{
    if d == 0 {
        proof { reveal_strlit("0"); }
        String::from_str("0")
    } else if d == 1 {
        proof { reveal_strlit("1"); }
        String::from_str("1")
    } else if d == 2 {
        proof { reveal_strlit("2"); }
        String::from_str("2")
    } else if d == 3 {
        proof { reveal_strlit("3"); }
        String::from_str("3")
    } else if d == 4 {
        proof { reveal_strlit("4"); }
        String::from_str("4")
    } else if d == 5 {
        proof { reveal_strlit("5"); }
        String::from_str("5")
    } else if d == 6 {
        proof { reveal_strlit("6"); }
        String::from_str("6")
    } else if d == 7 {
        proof { reveal_strlit("7"); }
        String::from_str("7")
    } else if d == 8 {
        proof { reveal_strlit("8"); }
        String::from_str("8")
    } else {
        proof { reveal_strlit("9"); }
        String::from_str("9")
    }
}

/// `n` in decimal.
pub fn to_decimal(n: usize) -> (r: String)
    ensures
        r@ == decimal(n as nat),
    decreases n,
{
    if n < 10 {
        digit(n)
    } else {
        let mut r = to_decimal(n / 10);
        let d = digit(n % 10);
        r.append(d.as_str());
        r
    }
}

/// The message for a string that matches no tag; `tags` are the tags as
/// they are to be displayed.
pub fn format_expected(tags: &Vec<String>) -> (r: String)
    ensures
        r@ == expected_message(tags@.map_values(|t: String| t@)),
{
    let ghost ts = tags@.map_values(|t: String| t@);
    if tags.len() <= 3 {
        let mut r = String::from_str("expected one of ");
        let mut i: usize = 0;
        while i < tags.len()
            invariant
                ts == tags@.map_values(|t: String| t@),
                0 <= i <= tags@.len(),
                r@ == "expected one of "@ + joined(ts.take(i as int)),
            decreases tags@.len() - i,
        {
            if i > 0 {
                r.append(", ");
            }
            r.append("`");
            r.append(tags[i].as_str());
            r.append("`");
            proof {
                let t = ts.take(i + 1);
                assert(t.drop_last() =~= ts.take(i as int));
                assert(t.last() == tags@[i as int]@);
                assert(r@ =~= "expected one of "@ + joined(t));
            }
            i = i + 1;
        }
        assert(ts.take(i as int) =~= ts);
        r
    } else {
        let mut r = String::from_str("expected `");
        r.append(tags[0].as_str());
        r.append("`, `");
        r.append(tags[1].as_str());
        r.append("`, or ");
        let n = to_decimal(tags.len() - 2);
        r.append(n.as_str());
        r.append(" others");
        proof {
            reveal_strlit("expected `");
            reveal_strlit("expected ");
            reveal_strlit("`, `");
            reveal_strlit("`, or ");
            reveal_strlit("`");
            reveal_strlit(", ");
            reveal_strlit(", or ");
            assert(r@ =~= expected_message(ts));
        }
        r
    }
}


impl Enum {
    /// The tags as they are to be displayed in messages.
    pub open spec fn displayed_tags(&self) -> Seq<Seq<char>> {
        self.variants@.map_values(|v: Variant| escaped(v.name@))
    }

    /// Derives the tag of each variant; a variant with fields rejects the
    /// whole enum, reported at the first such variant.
    pub fn new(ident: String, variants: &Vec<VariantDecl>) -> (r: Result<Enum, InvalidVariantShape>)
        ensures
            match r {
                Ok(e) => {
                    &&& forall|k: int| 0 <= k < variants@.len() ==> #[trigger] variants@[k].unit
                    &&& e.ident == ident
                    &&& e.variants@.len() == variants@.len()
                    &&& forall|k: int|
                        0 <= k < variants@.len() ==> {
                            &&& #[trigger] e.variants@[k].ident@ == variants@[k].ident@
                            &&& e.variants@[k].name@ == kebab_of(variants@[k].ident@)
                        }
                },
                Err(err) => {
                    &&& err.at < variants@.len()
                    &&& !variants@[err.at as int].unit
                    &&& forall|k: int| 0 <= k < err.at ==> #[trigger] variants@[k].unit
                    &&& err.ident@ == variants@[err.at as int].ident@
                    &&& err.message@ == variant_shape_message()
                },
            },
    {
        let mut out: Vec<Variant> = Vec::new();
        let mut i: usize = 0;
        while i < variants.len()
            invariant
                0 <= i <= variants@.len(),
                out@.len() == i,
                forall|k: int| 0 <= k < i ==> #[trigger] variants@[k].unit,
                forall|k: int|
                    0 <= k < i ==> {
                        &&& #[trigger] out@[k].ident@ == variants@[k].ident@
                        &&& out@[k].name@ == kebab_of(variants@[k].ident@)
                    },
            decreases variants@.len() - i,
        {
            let var = &variants[i];
            if !var.unit {
                return Err(
                    InvalidVariantShape {
                        at: i,
                        ident: var.ident.clone(),
                        message: String::from_str("only unit variants are allowed for DecodeScalar"),
                    },
                );
            }
            let name = to_kebab(var.ident.as_str());
            out.push(Variant { ident: var.ident.clone(), name });
            i = i + 1;
        }
        Ok(Enum { ident, variants: out })
    }

    /// The message for a string that matches no tag.
    pub fn value_error(&self) -> (r: String)
        ensures
            r@ == expected_message(self.displayed_tags()),
    {
        let mut tags: Vec<String> = Vec::new();
        let mut i: usize = 0;
        while i < self.variants.len()
            invariant
                0 <= i <= self.variants@.len(),
                tags@.map_values(|t: String| t@) == self.displayed_tags().take(i as int),
            decreases self.variants@.len() - i,
        {
            let t = escape(self.variants[i].name.as_str());
            let ghost before = tags@;
            tags.push(t);
            proof {
                assert(tags@ == before.push(t));
                assert(tags@.map_values(|t: String| t@) =~= before.map_values(|t: String| t@).push(
                    t@,
                ));
                assert(self.displayed_tags().take(i + 1) =~= self.displayed_tags().take(
                    i as int,
                ).push(self.displayed_tags()[i as int]));
                assert(tags@.map_values(|t: String| t@) =~= self.displayed_tags().take(i + 1));
            }
            i = i + 1;
        }
        assert(self.displayed_tags().take(i as int) =~= self.displayed_tags());
        format_expected(&tags)
    }

    /// The message for a literal that carries a type name.
    pub fn type_name_error(&self) -> (r: String)
        ensures
            r@ == type_name_message(self.ident@),
    {
        let mut r = String::from_str("unexpected type name for ");
        r.append(self.ident.as_str());
        r
    }

    /// Decodes a literal to the position of its variant. A literal with a type
    /// name is refused whatever its value; otherwise it must be a string equal
    /// to a tag, and the first variant with that tag is chosen.
    pub fn decode(&self, has_type_name: bool, value: &Literal) -> (r: Result<usize, DecodeError>)
        ensures
            has_type_name ==> (r matches Err(DecodeError::TypeName { message }) && message@
                == type_name_message(self.ident@)),
            !has_type_name && !(value is String) ==> (r matches Err(
                DecodeError::Value { message },
            ) && message@ == "expected string value"@),
            !has_type_name && value is String ==> match r {
                Ok(k) => {
                    &&& k < self.variants@.len()
                    &&& self.variants@[k as int].name@ == value->String_0@
                    &&& forall|j: int|
                        0 <= j < k ==> #[trigger] self.variants@[j].name@ != value->String_0@
                },
                Err(DecodeError::Value { message }) => {
                    &&& forall|j: int|
                        0 <= j < self.variants@.len() ==> #[trigger] self.variants@[j].name@
                            != value->String_0@
                    &&& message@ == expected_message(self.displayed_tags())
                },
                Err(DecodeError::TypeName { .. }) => false,
            },
    {
        if has_type_name {
            return Err(DecodeError::TypeName { message: self.type_name_error() });
        }
        match value {
            Literal::String(s) => {
                let mut i: usize = 0;
                while i < self.variants.len()
                    invariant
                        0 <= i <= self.variants@.len(),
                        !has_type_name,
                        *value == Literal::String(*s),
                        forall|j: int| 0 <= j < i ==> #[trigger] self.variants@[j].name@ != s@,
                    decreases self.variants@.len() - i,
                {
                    if self.variants[i].name == *s {
                        return Ok(i);
                    }
                    i = i + 1;
                }
                Err(DecodeError::Value { message: self.value_error() })
            },
            _ => Err(DecodeError::Value { message: String::from_str("expected string value") }),
        }
    }
}

} // verus!
