//! Field-role classification: turns the declared fields of a struct into a
//! decode plan, or reports the two declarations whose roles conflict.
use vstd::prelude::*;
use vstd::seq_lib::{group_to_multiset_ensures, lemma_multiset_commutative};

use crate::diagnostic::{err_pair, RoleConflict};

verus! {

/// The role a field's annotation gives it.
#[derive(Clone, Copy, Debug, PartialEq, Eq, Structural)]
pub enum FieldMode {
    /// One positional argument.
    Argument,
    /// One named property.
    Property,
    /// All positional arguments not taken by an `Argument` field.
    Arguments,
    /// All properties not taken by a `Property` field.
    Properties,
    /// All child nodes.
    Children,
}

/// One item of a field annotation.
#[derive(Clone, Copy, Debug, PartialEq, Eq, Structural)]
pub enum Attr {
    FieldMode(FieldMode),
}

/// How a positional argument is decoded.
#[derive(Clone, Copy, Debug, PartialEq, Eq, Structural)]
pub enum ArgKind {
    Value { option: bool },
}

/// The primitive kinds of a scalar literal.
#[derive(Clone, Copy, Debug, PartialEq, Eq, Structural)]
pub enum Kind {
    Int,
    Decimal,
    String,
    Bool,
}

/// How a field that the document does not fill gets its value.
#[derive(Clone, Copy, Debug, PartialEq, Eq, Structural)]
pub enum ExtraKind {
    Default,
}

/// The annotations gathered for one field so far.
#[derive(Debug)]
pub struct FieldAttrs {
    pub mode: Option<FieldMode>,
}

/// The mode after reading `attrs` on top of `init`: the last one given wins.
pub open spec fn mode_after(init: Option<FieldMode>, attrs: Seq<Attr>) -> Option<FieldMode> {
    if attrs.len() == 0 {
        init
    } else {
        match attrs.last() {
            Attr::FieldMode(m) => Some(m),
        }
    }
}

impl FieldAttrs {
    pub fn new() -> (r: FieldAttrs)
        ensures
            r.mode is None,
    {
        FieldAttrs { mode: None }
    }

    pub fn update(&mut self, attrs: &Vec<Attr>)
        ensures
            final(self).mode == mode_after(old(self).mode, attrs@),
    {
        let mut i: usize = 0;
        while i < attrs.len()
            invariant
                0 <= i <= attrs@.len(),
                self.mode == mode_after(old(self).mode, attrs@.take(i as int)),
            decreases attrs@.len() - i,
        {
            match attrs[i] {
                Attr::FieldMode(m) => self.mode = Some(m),
            }
            assert(attrs@.take(i + 1).last() == attrs@[i as int]);
            i = i + 1;
        }
        assert(attrs@.take(i as int) =~= attrs@);
    }
}

/// The shape of a field's declared type, as far as classification reads it.
pub enum TypeShape {
    /// A path type such as `a::b::C<D>`.
    Path {
        /// The path has a qualified self type (`<T as Trait>::X`).
        qself: bool,
        /// The path starts with `::`.
        leading_colon: bool,
        /// The identifiers of the path's segments.
        segments: Vec<String>,
    },
    /// Any other type.
    Other,
}

/// A type counts as optional when it is the bare one-segment path `Option`.
pub open spec fn is_option_spec(ty: TypeShape) -> bool {
    match ty {
        TypeShape::Path { qself, leading_colon, segments } => !qself && !leading_colon
            && segments@.len() == 1 && segments@[0]@ == "Option"@,
        TypeShape::Other => false,
    }
}

pub fn is_option(ty: &TypeShape) -> (r: bool)
    ensures
        r == is_option_spec(*ty),
{
    match ty {
        TypeShape::Path { qself, leading_colon, segments } => {
            if *qself || *leading_colon || segments.len() != 1 {
                false
            } else {
                let expected = String::from_str("Option");
                segments[0] == expected
            }
        },
        TypeShape::Other => false,
    }
}


/// A positional argument field.
pub struct Arg {
    pub field: String,
    pub kind: ArgKind,
}

/// The field that takes all remaining positional arguments.
pub struct VarArgs {
    pub field: String,
}

/// A named property field; the property's name is the field's identifier.
pub struct Prop {
    pub field: String,
    pub option: bool,
}

impl Prop {
    pub fn name(&self) -> (r: String)
        ensures
            r@ == self.field@,
    {
        self.field.clone()
    }
}

/// The field that takes all remaining properties.
pub struct VarProps {
    pub field: String,
}

/// The field that takes all child nodes.
pub struct VarChildren {
    pub field: String,
}

/// A field with no role: it is filled without reading the document.
pub struct ExtraField {
    pub ident: String,
    pub kind: ExtraKind,
}

/// A struct without fields.
pub struct UnitStruct {
    pub ident: String,
}

impl UnitStruct {
    pub fn new(ident: String) -> (r: UnitStruct)
        ensures
            r.ident == ident,
    {
        UnitStruct { ident }
    }
}

/// A named field as the front end declares it.
pub struct FieldDecl {
    pub ident: String,
    pub ty: TypeShape,
    /// The role given by the field's annotations, if any.
    pub mode: Option<FieldMode>,
}

/// The decode plan of a struct with named fields.
pub struct Struct {
    pub ident: String,
    pub arguments: Vec<Arg>,
    pub var_args: Option<VarArgs>,
    pub properties: Vec<Prop>,
    pub var_props: Option<VarProps>,
    /// No argument or property of any kind is read: the node holds only
    /// children.
    pub children_only: bool,
    pub children: Option<VarChildren>,
    pub extra_fields: Vec<ExtraField>,
}

/// The catch-all role whose presence forbids a later field of role `m`.
pub open spec fn guard(m: FieldMode) -> FieldMode {
    match m {
        FieldMode::Argument | FieldMode::Arguments => FieldMode::Arguments,
        FieldMode::Property | FieldMode::Properties => FieldMode::Properties,
        FieldMode::Children => FieldMode::Children,
    }
}

/// Field `i` has a role, and an earlier field holds the catch-all role that
/// forbids it.
pub open spec fn conflict_at(fs: Seq<FieldDecl>, i: int) -> bool {
    &&& 0 <= i < fs.len()
    &&& fs[i].mode is Some
    &&& exists|j: int| 0 <= j < i && #[trigger] fs[j].mode == Some(guard(fs[i].mode->0))
}

pub open spec fn conflict_free(fs: Seq<FieldDecl>) -> bool {
    forall|i: int| !#[trigger] conflict_at(fs, i)
}

/// `j` is the first field whose role is `m`.
pub open spec fn first_with(fs: Seq<FieldDecl>, j: int, m: FieldMode) -> bool {
    &&& 0 <= j < fs.len()
    &&& fs[j].mode == Some(m)
    &&& forall|k: int| 0 <= k < j ==> #[trigger] fs[k].mode != Some(m)
}

/// The message at a field of role `m` that was rejected.
pub open spec fn conflict_message(m: FieldMode) -> Seq<char> {
    match m {
        FieldMode::Argument => "extra `argument` after capture all `arguments`"@,
        FieldMode::Arguments => "only single `arguments` allowed"@,
        FieldMode::Property => "extra `property` after capture all `properties`"@,
        FieldMode::Properties => "only single `properties` is allowed"@,
        FieldMode::Children => "only single catch all `children` is allowed"@,
    }
}

/// The message at the earlier catch-all field that rejected a field of role `m`.
pub open spec fn prior_message(m: FieldMode) -> Seq<char> {
    match m {
        FieldMode::Argument => "capture all `arguments` is defined here"@,
        FieldMode::Arguments => "previous `arguments` is defined here"@,
        FieldMode::Property => "capture all `properties` is defined here"@,
        FieldMode::Properties => "previous `properties` is defined here"@,
        FieldMode::Children => "previous `children` is defined here"@,
    }
}

/// The fields whose role is `m`, in declaration order.
pub open spec fn with_mode(fs: Seq<FieldDecl>, m: Option<FieldMode>) -> Seq<FieldDecl> {
    fs.filter(|f: FieldDecl| f.mode == m)
}

pub open spec fn idents(fs: Seq<FieldDecl>) -> Seq<Seq<char>> {
    fs.map_values(|f: FieldDecl| f.ident@)
}

pub open spec fn optionals(fs: Seq<FieldDecl>) -> Seq<bool> {
    fs.map_values(|f: FieldDecl| is_option_spec(f.ty))
}

/// `r` reports the first conflicting field and the catch-all that it
/// conflicts with.
pub open spec fn reports(fs: Seq<FieldDecl>, r: RoleConflict) -> bool {
    let i = r.primary.at as int;
    let j = r.secondary.at as int;
    let m = fs[i].mode->0;
    &&& conflict_at(fs, i)
    &&& forall|k: int| 0 <= k < i ==> !#[trigger] conflict_at(fs, k)
    &&& j < i
    &&& first_with(fs, j, guard(m))
    &&& r.primary.ident@ == fs[i].ident@
    &&& r.secondary.ident@ == fs[j].ident@
    &&& r.primary.message@ == conflict_message(m)
    &&& r.secondary.message@ == prior_message(m)
}

impl Struct {
    pub open spec fn argument_idents(&self) -> Seq<Seq<char>> {
        self.arguments@.map_values(|a: Arg| a.field@)
    }

    pub open spec fn argument_optionals(&self) -> Seq<bool> {
        self.arguments@.map_values(|a: Arg| a.kind->option)
    }

    pub open spec fn var_args_idents(&self) -> Seq<Seq<char>> {
        match self.var_args {
            Some(v) => seq![v.field@],
            None => seq![],
        }
    }

    pub open spec fn property_idents(&self) -> Seq<Seq<char>> {
        self.properties@.map_values(|p: Prop| p.field@)
    }

    pub open spec fn property_optionals(&self) -> Seq<bool> {
        self.properties@.map_values(|p: Prop| p.option)
    }

    pub open spec fn var_props_idents(&self) -> Seq<Seq<char>> {
        match self.var_props {
            Some(v) => seq![v.field@],
            None => seq![],
        }
    }

    pub open spec fn children_idents(&self) -> Seq<Seq<char>> {
        match self.children {
            Some(v) => seq![v.field@],
            None => seq![],
        }
    }

    pub open spec fn extra_idents(&self) -> Seq<Seq<char>> {
        self.extra_fields@.map_values(|f: ExtraField| f.ident@)
    }

    /// Every field of the plan: arguments, catch-all arguments, properties,
    /// catch-all properties, catch-all children, then extra fields.
    pub open spec fn all_idents(&self) -> Seq<Seq<char>> {
        self.argument_idents() + self.var_args_idents() + self.property_idents()
            + self.var_props_idents() + self.children_idents() + self.extra_idents()
    }

    /// `self` is the plan of the struct `ident` with fields `fs`: each role
    /// holds the fields annotated with it, in declaration order, and the rest
    /// are extra fields.
    pub open spec fn plans(&self, ident: Seq<char>, fs: Seq<FieldDecl>) -> bool {
        &&& self.ident@ == ident
        &&& self.argument_idents() == idents(with_mode(fs, Some(FieldMode::Argument)))
        &&& self.argument_optionals() == optionals(with_mode(fs, Some(FieldMode::Argument)))
        &&& self.var_args_idents() == idents(with_mode(fs, Some(FieldMode::Arguments)))
        &&& self.property_idents() == idents(with_mode(fs, Some(FieldMode::Property)))
        &&& self.property_optionals() == optionals(with_mode(fs, Some(FieldMode::Property)))
        &&& self.var_props_idents() == idents(with_mode(fs, Some(FieldMode::Properties)))
        &&& self.children_idents() == idents(with_mode(fs, Some(FieldMode::Children)))
        &&& self.extra_idents() == idents(with_mode(fs, None))
        &&& self.extra_fields@.map_values(|f: ExtraField| f.kind) == Seq::new(
            self.extra_fields@.len(),
            |k: int| ExtraKind::Default,
        )
        &&& self.children_only == (self.arguments@.len() == 0 && self.properties@.len() == 0
            && self.var_args is None && self.var_props is None)
    }
}


/// What a scan of the first `i` fields knows of the catch-all role `m`:
/// `at` is the first field holding it, if any.
pub open spec fn slot_scanned(fs: Seq<FieldDecl>, i: int, at: Option<usize>, m: FieldMode) -> bool {
    &&& with_mode(fs.take(i), Some(m)) == match at {
        Some(a) => seq![fs[a as int]],
        None => Seq::<FieldDecl>::empty(),
    }
    &&& match at {
        Some(a) => a < i && first_with(fs, a as int, m),
        None => forall|k: int| 0 <= k < i ==> #[trigger] fs[k].mode != Some(m),
    }
}

proof fn lemma_with_mode_step(fs: Seq<FieldDecl>, i: int, m: Option<FieldMode>)
    requires
        0 <= i < fs.len(),
    ensures
        with_mode(fs.take(i + 1), m) == if fs[i].mode == m {
            with_mode(fs.take(i), m).push(fs[i])
        } else {
            with_mode(fs.take(i), m)
        },
{
    reveal(Seq::filter);
    assert(fs.take(i + 1).drop_last() =~= fs.take(i));
}

proof fn lemma_idents_push(fs: Seq<FieldDecl>, f: FieldDecl)
    ensures
        idents(fs.push(f)) == idents(fs).push(f.ident@),
        optionals(fs.push(f)) == optionals(fs).push(is_option_spec(f.ty)),
{
    assert(idents(fs.push(f)) =~= idents(fs).push(f.ident@));
    assert(optionals(fs.push(f)) =~= optionals(fs).push(is_option_spec(f.ty)));
}

proof fn lemma_slot_step(fs: Seq<FieldDecl>, i: int, at: Option<usize>, m: FieldMode)
    requires
        0 <= i < fs.len(),
        slot_scanned(fs, i, at, m),
        fs[i].mode != Some(m),
    ensures
        slot_scanned(fs, i + 1, at, m),
{
    lemma_with_mode_step(fs, i, Some(m));
}

proof fn lemma_slot_fill(fs: Seq<FieldDecl>, i: usize, m: FieldMode)
    requires
        i < fs.len(),
        slot_scanned(fs, i as int, None, m),
        fs[i as int].mode == Some(m),
    ensures
        slot_scanned(fs, i + 1, Some(i), m),
{
    lemma_with_mode_step(fs, i as int, Some(m));
    assert(Seq::<FieldDecl>::empty().push(fs[i as int]) =~= seq![fs[i as int]]);
}

proof fn lemma_with_mode_none_scanned(fs: Seq<FieldDecl>)
    ensures
        forall|m: Option<FieldMode>| #[trigger] with_mode(fs.take(0), m) == Seq::<FieldDecl>::empty(),
{
    reveal(Seq::filter);
    assert(fs.take(0) =~= Seq::<FieldDecl>::empty());
}

proof fn lemma_others_step(fs: Seq<FieldDecl>, i: int)
    requires
        0 <= i < fs.len(),
    ensures
        forall|m: Option<FieldMode>|
            fs[i].mode != m ==> #[trigger] with_mode(fs.take(i + 1), m) == with_mode(fs.take(i), m),
{
    assert forall|m: Option<FieldMode>| fs[i].mode != m implies #[trigger] with_mode(
        fs.take(i + 1),
        m,
    ) == with_mode(fs.take(i), m) by {
        lemma_with_mode_step(fs, i, m);
    }
}

impl Struct {
    /// Classifies `fields` in one pass from first to last. A field with a role
    /// that an earlier catch-all field of the same kind forbids (a second
    /// catch-all, or a single argument or property after the catch-all)
    /// stops the pass with a conflict naming both fields.
    pub fn new(ident: String, fields: &Vec<FieldDecl>) -> (r: Result<Struct, RoleConflict>)
        ensures
            match r {
                Ok(s) => conflict_free(fields@) && s.plans(ident@, fields@),
                Err(e) => reports(fields@, e),
            },
    {
        let ghost fs = fields@;
        let mut arguments: Vec<Arg> = Vec::new();
        let mut properties: Vec<Prop> = Vec::new();
        let mut extra_fields: Vec<ExtraField> = Vec::new();
        let mut args_at: Option<usize> = None;
        let mut props_at: Option<usize> = None;
        let mut children_at: Option<usize> = None;
        let mut i: usize = 0;
        proof {
            lemma_with_mode_none_scanned(fs);
            assert(idents(Seq::<FieldDecl>::empty()) =~= Seq::<Seq<char>>::empty());
            assert(optionals(Seq::<FieldDecl>::empty()) =~= Seq::<bool>::empty());
            assert(arguments@.map_values(|a: Arg| a.field@) =~= Seq::<Seq<char>>::empty());
            assert(arguments@.map_values(|a: Arg| a.kind->option) =~= Seq::<bool>::empty());
            assert(properties@.map_values(|p: Prop| p.field@) =~= Seq::<Seq<char>>::empty());
            assert(properties@.map_values(|p: Prop| p.option) =~= Seq::<bool>::empty());
            assert(extra_fields@.map_values(|f: ExtraField| f.ident@) =~= Seq::<Seq<char>>::empty());
        }
        while i < fields.len()
            invariant
                fs == fields@,
                0 <= i <= fs.len(),
                forall|k: int| 0 <= k < i ==> !#[trigger] conflict_at(fs, k),
                slot_scanned(fs, i as int, args_at, FieldMode::Arguments),
                slot_scanned(fs, i as int, props_at, FieldMode::Properties),
                slot_scanned(fs, i as int, children_at, FieldMode::Children),
                arguments@.map_values(|a: Arg| a.field@) == idents(
                    with_mode(fs.take(i as int), Some(FieldMode::Argument)),
                ),
                arguments@.map_values(|a: Arg| a.kind->option) == optionals(
                    with_mode(fs.take(i as int), Some(FieldMode::Argument)),
                ),
                properties@.map_values(|p: Prop| p.field@) == idents(
                    with_mode(fs.take(i as int), Some(FieldMode::Property)),
                ),
                properties@.map_values(|p: Prop| p.option) == optionals(
                    with_mode(fs.take(i as int), Some(FieldMode::Property)),
                ),
                extra_fields@.map_values(|f: ExtraField| f.ident@) == idents(
                    with_mode(fs.take(i as int), None),
                ),
                forall|k: int|
                    0 <= k < extra_fields@.len() ==> #[trigger] extra_fields@[k].kind
                        == ExtraKind::Default,
            decreases fs.len() - i,
        {
            let fld = &fields[i];
            proof {
                lemma_others_step(fs, i as int);
                lemma_with_mode_step(fs, i as int, fs[i as int].mode);
                lemma_idents_push(with_mode(fs.take(i as int), fs[i as int].mode), fs[i as int]);
            }
            match fld.mode {
                Some(FieldMode::Argument) => {
                    if let Some(prev) = args_at {
                        assert(conflict_at(fs, i as int));
                        return Err(
                            err_pair(
                                i,
                                &fld.ident,
                                prev,
                                &fields[prev].ident,
                                "extra `argument` after capture all `arguments`",
                                "capture all `arguments` is defined here",
                            ),
                        );
                    }
                    let option = is_option(&fld.ty);
                    arguments.push(Arg { field: fld.ident.clone(), kind: ArgKind::Value { option } });
                    proof {
                        lemma_slot_step(fs, i as int, args_at, FieldMode::Arguments);
                        lemma_slot_step(fs, i as int, props_at, FieldMode::Properties);
                        lemma_slot_step(fs, i as int, children_at, FieldMode::Children);
                    }
                },
                Some(FieldMode::Arguments) => {
                    if let Some(prev) = args_at {
                        assert(conflict_at(fs, i as int));
                        return Err(
                            err_pair(
                                i,
                                &fld.ident,
                                prev,
                                &fields[prev].ident,
                                "only single `arguments` allowed",
                                "previous `arguments` is defined here",
                            ),
                        );
                    }
                    proof {
                        lemma_slot_fill(fs, i, FieldMode::Arguments);
                        lemma_slot_step(fs, i as int, props_at, FieldMode::Properties);
                        lemma_slot_step(fs, i as int, children_at, FieldMode::Children);
                    }
                    args_at = Some(i);
                },
                Some(FieldMode::Property) => {
                    if let Some(prev) = props_at {
                        assert(conflict_at(fs, i as int));
                        return Err(
                            err_pair(
                                i,
                                &fld.ident,
                                prev,
                                &fields[prev].ident,
                                "extra `property` after capture all `properties`",
                                "capture all `properties` is defined here",
                            ),
                        );
                    }
                    let option = is_option(&fld.ty);
                    properties.push(Prop { field: fld.ident.clone(), option });
                    proof {
                        lemma_slot_step(fs, i as int, args_at, FieldMode::Arguments);
                        lemma_slot_step(fs, i as int, props_at, FieldMode::Properties);
                        lemma_slot_step(fs, i as int, children_at, FieldMode::Children);
                    }
                },
                Some(FieldMode::Properties) => {
                    if let Some(prev) = props_at {
                        assert(conflict_at(fs, i as int));
                        return Err(
                            err_pair(
                                i,
                                &fld.ident,
                                prev,
                                &fields[prev].ident,
                                "only single `properties` is allowed",
                                "previous `properties` is defined here",
                            ),
                        );
                    }
                    proof {
                        lemma_slot_step(fs, i as int, args_at, FieldMode::Arguments);
                        lemma_slot_fill(fs, i, FieldMode::Properties);
                        lemma_slot_step(fs, i as int, children_at, FieldMode::Children);
                    }
                    props_at = Some(i);
                },
                Some(FieldMode::Children) => {
                    if let Some(prev) = children_at {
                        assert(conflict_at(fs, i as int));
                        return Err(
                            err_pair(
                                i,
                                &fld.ident,
                                prev,
                                &fields[prev].ident,
                                "only single catch all `children` is allowed",
                                "previous `children` is defined here",
                            ),
                        );
                    }
                    proof {
                        lemma_slot_step(fs, i as int, args_at, FieldMode::Arguments);
                        lemma_slot_step(fs, i as int, props_at, FieldMode::Properties);
                        lemma_slot_fill(fs, i, FieldMode::Children);
                    }
                    children_at = Some(i);
                },
                None => {
                    extra_fields.push(ExtraField { ident: fld.ident.clone(), kind: ExtraKind::Default });
                    proof {
                        lemma_slot_step(fs, i as int, args_at, FieldMode::Arguments);
                        lemma_slot_step(fs, i as int, props_at, FieldMode::Properties);
                        lemma_slot_step(fs, i as int, children_at, FieldMode::Children);
                    }
                },
            }
            assert(!conflict_at(fs, i as int));
            i = i + 1;
        }
        assert(fs.take(fs.len() as int) =~= fs);
        let var_args = match args_at {
            Some(a) => Some(VarArgs { field: fields[a].ident.clone() }),
            None => None,
        };
        let var_props = match props_at {
            Some(a) => Some(VarProps { field: fields[a].ident.clone() }),
            None => None,
        };
        let children = match children_at {
            Some(a) => Some(VarChildren { field: fields[a].ident.clone() }),
            None => None,
        };
        let children_only = arguments.len() == 0 && properties.len() == 0 && var_args.is_none()
            && var_props.is_none();
        let s = Struct {
            ident,
            arguments,
            var_args,
            properties,
            var_props,
            children_only,
            children,
            extra_fields,
        };
        proof {
            if let Some(a) = args_at {
                assert(idents(seq![fs[a as int]]) =~= seq![fs[a as int].ident@]);
            }
            if let Some(a) = props_at {
                assert(idents(seq![fs[a as int]]) =~= seq![fs[a as int].ident@]);
            }
            if let Some(a) = children_at {
                assert(idents(seq![fs[a as int]]) =~= seq![fs[a as int].ident@]);
            }
            assert(idents(Seq::<FieldDecl>::empty()) =~= Seq::<Seq<char>>::empty());
            assert(s.extra_fields@.map_values(|f: ExtraField| f.kind) =~= Seq::new(
                s.extra_fields@.len(),
                |k: int| ExtraKind::Default,
            ));
        }
        Ok(s)
    }
}


proof fn lemma_extend(
    before: Seq<String>,
    x: String,
    done: Seq<Seq<char>>,
    all: Seq<Seq<char>>,
    i: int,
)
    requires
        before.map_values(|f: String| f@) == done + all.take(i),
        0 <= i < all.len(),
        x@ == all[i],
    ensures
        before.push(x).map_values(|f: String| f@) == done + all.take(i + 1),
{
    assert(before.push(x).map_values(|f: String| f@) =~= before.map_values(|f: String| f@).push(
        x@,
    ));
    assert(all.take(i + 1) =~= all.take(i).push(all[i]));
    assert(done + all.take(i + 1) =~= (done + all.take(i)).push(all[i]));
}

proof fn lemma_extend_slot(before: Seq<String>, x: Option<String>, done: Seq<Seq<char>>, slot: Seq<Seq<char>>)
    requires
        before.map_values(|f: String| f@) == done,
        slot == match x {
            Some(v) => seq![v@],
            None => Seq::<Seq<char>>::empty(),
        },
    ensures
        match x {
            Some(v) => before.push(v),
            None => before,
        }.map_values(|f: String| f@) == done + slot,
{
    match x {
        Some(v) => {
            assert(before.push(v).map_values(|f: String| f@) =~= done + slot);
        },
        None => {
            assert(done + slot =~= done);
        },
    }
}

impl Struct {
    /// The identifiers of all fields of the plan, in the order of
    /// `all_idents`.
    pub fn all_fields(&self) -> (r: Vec<String>)
        ensures
            r@.map_values(|f: String| f@) == self.all_idents(),
    {
        let mut res: Vec<String> = Vec::new();
        let ghost done = Seq::<Seq<char>>::empty();
        assert(res@.map_values(|f: String| f@) =~= done + self.argument_idents().take(0));
        let mut i: usize = 0;
        while i < self.arguments.len()
            invariant
                0 <= i <= self.arguments@.len(),
                res@.map_values(|f: String| f@) == done + self.argument_idents().take(i as int),
            decreases self.arguments@.len() - i,
        {
            let x = self.arguments[i].field.clone();
            proof {
                lemma_extend(res@, x, done, self.argument_idents(), i as int);
            }
            res.push(x);
            i = i + 1;
        }
        assert(self.argument_idents().take(i as int) =~= self.argument_idents());
        let ghost done = done + self.argument_idents();
        let x = match &self.var_args {
            Some(v) => Some(v.field.clone()),
            None => None,
        };
        proof {
            lemma_extend_slot(res@, x, done, self.var_args_idents());
        }
        if let Some(v) = x {
            res.push(v);
        }
        let ghost done = done + self.var_args_idents();
        assert(res@.map_values(|f: String| f@) =~= done + self.property_idents().take(0));
        i = 0;
        while i < self.properties.len()
            invariant
                0 <= i <= self.properties@.len(),
                res@.map_values(|f: String| f@) == done + self.property_idents().take(i as int),
            decreases self.properties@.len() - i,
        {
            let x = self.properties[i].field.clone();
            proof {
                lemma_extend(res@, x, done, self.property_idents(), i as int);
            }
            res.push(x);
            i = i + 1;
        }
        assert(self.property_idents().take(i as int) =~= self.property_idents());
        let ghost done = done + self.property_idents();
        let x = match &self.var_props {
            Some(v) => Some(v.field.clone()),
            None => None,
        };
        proof {
            lemma_extend_slot(res@, x, done, self.var_props_idents());
        }
        if let Some(v) = x {
            res.push(v);
        }
        let ghost done = done + self.var_props_idents();
        let x = match &self.children {
            Some(v) => Some(v.field.clone()),
            None => None,
        };
        proof {
            lemma_extend_slot(res@, x, done, self.children_idents());
        }
        if let Some(v) = x {
            res.push(v);
        }
        let ghost done = done + self.children_idents();
        assert(res@.map_values(|f: String| f@) =~= done + self.extra_idents().take(0));
        i = 0;
        while i < self.extra_fields.len()
            invariant
                0 <= i <= self.extra_fields@.len(),
                res@.map_values(|f: String| f@) == done + self.extra_idents().take(i as int),
            decreases self.extra_fields@.len() - i,
        {
            let x = self.extra_fields[i].ident.clone();
            proof {
                lemma_extend(res@, x, done, self.extra_idents(), i as int);
            }
            res.push(x);
            i = i + 1;
        }
        assert(self.extra_idents().take(i as int) =~= self.extra_idents());
        res
    }
}

/// No two fields hold the catch-all role `m`.
pub open spec fn at_most_one(fs: Seq<FieldDecl>, m: FieldMode) -> bool {
    forall|i: int, j: int|
        0 <= i < fs.len() && 0 <= j < fs.len() && #[trigger] fs[i].mode == Some(m)
            && #[trigger] fs[j].mode == Some(m) ==> i == j
}

/// No single argument follows the catch-all arguments field, and no single
/// property follows the catch-all properties field.
pub open spec fn no_single_after_catch_all(fs: Seq<FieldDecl>) -> bool {
    forall|j: int, i: int|
        0 <= j < i < fs.len() ==> {
            &&& !(#[trigger] fs[j].mode == Some(FieldMode::Arguments) && #[trigger] fs[i].mode
                == Some(FieldMode::Argument))
            &&& !(fs[j].mode == Some(FieldMode::Properties) && fs[i].mode == Some(
                FieldMode::Property,
            ))
        }
}

/// The identifiers of `fs` grouped by role, in the order a plan lists them.
pub open spec fn grouped_idents(fs: Seq<FieldDecl>) -> Seq<Seq<char>> {
    idents(with_mode(fs, Some(FieldMode::Argument))) + idents(
        with_mode(fs, Some(FieldMode::Arguments)),
    ) + idents(with_mode(fs, Some(FieldMode::Property))) + idents(
        with_mode(fs, Some(FieldMode::Properties)),
    ) + idents(with_mode(fs, Some(FieldMode::Children))) + idents(with_mode(fs, None))
}

proof fn lemma_six_multiset(
    a: Seq<Seq<char>>,
    b: Seq<Seq<char>>,
    c: Seq<Seq<char>>,
    d: Seq<Seq<char>>,
    e: Seq<Seq<char>>,
    f: Seq<Seq<char>>,
)
    ensures
        (a + b + c + d + e + f).to_multiset() =~= a.to_multiset().add(b.to_multiset()).add(
            c.to_multiset(),
        ).add(d.to_multiset()).add(e.to_multiset()).add(f.to_multiset()),
{
    lemma_multiset_commutative(a, b);
    lemma_multiset_commutative(a + b, c);
    lemma_multiset_commutative(a + b + c, d);
    lemma_multiset_commutative(a + b + c + d, e);
    lemma_multiset_commutative(a + b + c + d + e, f);
}

/// The identifiers of the fields of role `m`, as a multiset, grow by the
/// last field's identifier when it has that role.
proof fn lemma_group_step(p: Seq<FieldDecl>, f: FieldDecl, m: Option<FieldMode>)
    ensures
        idents(with_mode(p.push(f), m)).to_multiset() =~= if f.mode == m {
            idents(with_mode(p, m)).to_multiset().insert(f.ident@)
        } else {
            idents(with_mode(p, m)).to_multiset()
        },
{
    broadcast use group_to_multiset_ensures;

    reveal(Seq::filter);
    assert(p.push(f).drop_last() =~= p);
    lemma_idents_push(with_mode(p, m), f);
}

proof fn lemma_grouped_idents(fs: Seq<FieldDecl>)
    ensures
        grouped_idents(fs).to_multiset() =~= idents(fs).to_multiset(),
    decreases fs.len(),
{
    broadcast use group_to_multiset_ensures;

    let ga = idents(with_mode(fs, Some(FieldMode::Argument)));
    let gb = idents(with_mode(fs, Some(FieldMode::Arguments)));
    let gc = idents(with_mode(fs, Some(FieldMode::Property)));
    let gd = idents(with_mode(fs, Some(FieldMode::Properties)));
    let ge = idents(with_mode(fs, Some(FieldMode::Children)));
    let gf = idents(with_mode(fs, None));
    lemma_six_multiset(ga, gb, gc, gd, ge, gf);
    if fs.len() == 0 {
        reveal(Seq::filter);
        assert(idents(fs) =~= Seq::<Seq<char>>::empty());
        assert(idents(Seq::<FieldDecl>::empty()) =~= Seq::<Seq<char>>::empty());
        assert(grouped_idents(fs) =~= Seq::<Seq<char>>::empty());
        assert(grouped_idents(fs).to_multiset() =~= idents(fs).to_multiset());
    } else {
        let p = fs.drop_last();
        let f = fs.last();
        lemma_grouped_idents(p);
        assert(fs =~= p.push(f));
        lemma_idents_push(p, f);
        lemma_six_multiset(
            idents(with_mode(p, Some(FieldMode::Argument))),
            idents(with_mode(p, Some(FieldMode::Arguments))),
            idents(with_mode(p, Some(FieldMode::Property))),
            idents(with_mode(p, Some(FieldMode::Properties))),
            idents(with_mode(p, Some(FieldMode::Children))),
            idents(with_mode(p, None)),
        );
        lemma_group_step(p, f, Some(FieldMode::Argument));
        lemma_group_step(p, f, Some(FieldMode::Arguments));
        lemma_group_step(p, f, Some(FieldMode::Property));
        lemma_group_step(p, f, Some(FieldMode::Properties));
        lemma_group_step(p, f, Some(FieldMode::Children));
        lemma_group_step(p, f, None);
        assert(idents(fs).to_multiset() =~= idents(p).to_multiset().insert(f.ident@));
        let pa = idents(with_mode(p, Some(FieldMode::Argument))).to_multiset();
        let pb = idents(with_mode(p, Some(FieldMode::Arguments))).to_multiset();
        let pc = idents(with_mode(p, Some(FieldMode::Property))).to_multiset();
        let pd = idents(with_mode(p, Some(FieldMode::Properties))).to_multiset();
        let pe = idents(with_mode(p, Some(FieldMode::Children))).to_multiset();
        let pf = idents(with_mode(p, None)).to_multiset();
        let x = f.ident@;
        let total = grouped_idents(fs).to_multiset();
        let before = pa.add(pb).add(pc).add(pd).add(pe).add(pf);
        assert(grouped_idents(p).to_multiset() == before);
        match f.mode {
            Some(FieldMode::Argument) => {
                assert(total =~= pa.insert(x).add(pb).add(pc).add(pd).add(pe).add(pf));
            },
            Some(FieldMode::Arguments) => {
                assert(total =~= pa.add(pb.insert(x)).add(pc).add(pd).add(pe).add(pf));
            },
            Some(FieldMode::Property) => {
                assert(total =~= pa.add(pb).add(pc.insert(x)).add(pd).add(pe).add(pf));
            },
            Some(FieldMode::Properties) => {
                assert(total =~= pa.add(pb).add(pc).add(pd.insert(x)).add(pe).add(pf));
            },
            Some(FieldMode::Children) => {
                assert(total =~= pa.add(pb).add(pc).add(pd).add(pe.insert(x)).add(pf));
            },
            None => {
                assert(total =~= pa.add(pb).add(pc).add(pd).add(pe).add(pf.insert(x)));
            },
        }
        assert(total =~= before.insert(x));
    }
}

proof fn lemma_with_mode_empty(fs: Seq<FieldDecl>, m: Option<FieldMode>)
    ensures
        with_mode(fs, m).len() == 0 <==> forall|i: int| 0 <= i < fs.len() ==> #[trigger] fs[i].mode != m,
    decreases fs.len(),
{
    reveal(Seq::filter);
    if fs.len() > 0 {
        let p = fs.drop_last();
        lemma_with_mode_empty(p, m);
        if with_mode(fs, m).len() == 0 {
            assert forall|i: int| 0 <= i < fs.len() implies #[trigger] fs[i].mode != m by {
                if i < fs.len() - 1 {
                    assert(fs[i] == p[i]);
                }
            }
        }
        if forall|i: int| 0 <= i < fs.len() ==> #[trigger] fs[i].mode != m {
            assert forall|i: int| 0 <= i < p.len() implies #[trigger] p[i].mode != m by {
                assert(p[i] == fs[i]);
            }
        }
    }
}

/// A field list with at most one catch-all field of each kind, and no single
/// argument or property after the catch-all of its kind, classifies without
/// conflict; and its plan holds every field exactly once.
pub proof fn lemma_classification_succeeds(fs: Seq<FieldDecl>)
    requires
        at_most_one(fs, FieldMode::Arguments),
        at_most_one(fs, FieldMode::Properties),
        at_most_one(fs, FieldMode::Children),
        no_single_after_catch_all(fs),
    ensures
        conflict_free(fs),
        forall|s: Struct| #[trigger]
            s.plans(s.ident@, fs) ==> s.all_idents().to_multiset() =~= idents(fs).to_multiset(),
{
    assert forall|i: int| !#[trigger] conflict_at(fs, i) by {
        if conflict_at(fs, i) {
            let j = choose|j: int| 0 <= j < i && #[trigger] fs[j].mode == Some(guard(fs[i].mode->0));
            assert(fs[j].mode == Some(guard(fs[i].mode->0)));
        }
    }
    lemma_grouped_idents(fs);
    assert forall|s: Struct| #[trigger] s.plans(s.ident@, fs) implies s.all_idents().to_multiset()
        =~= idents(fs).to_multiset() by {
        assert(s.all_idents() == grouped_idents(fs));
    }
}

/// A plan reads only child nodes exactly when no field is a single or
/// catch-all argument or property; catch-all children and extra fields do
/// not matter.
pub proof fn lemma_children_only(fs: Seq<FieldDecl>, s: Struct)
    requires
        s.plans(s.ident@, fs),
    ensures
        s.children_only <==> forall|i: int|
            0 <= i < fs.len() ==> #[trigger] fs[i].mode is None || fs[i].mode == Some(
                FieldMode::Children,
            ),
{
    lemma_with_mode_empty(fs, Some(FieldMode::Argument));
    lemma_with_mode_empty(fs, Some(FieldMode::Arguments));
    lemma_with_mode_empty(fs, Some(FieldMode::Property));
    lemma_with_mode_empty(fs, Some(FieldMode::Properties));
    assert(s.arguments@.len() == s.argument_idents().len());
    assert(s.properties@.len() == s.property_idents().len());
    assert(s.var_args is None <==> s.var_args_idents().len() == 0);
    assert(s.var_props is None <==> s.var_props_idents().len() == 0);
    if forall|i: int|
        0 <= i < fs.len() ==> #[trigger] fs[i].mode is None || fs[i].mode == Some(
            FieldMode::Children,
        ) {
        assert forall|i: int| 0 <= i < fs.len() implies #[trigger] fs[i].mode != Some(
            FieldMode::Argument,
        ) && fs[i].mode != Some(FieldMode::Arguments) && fs[i].mode != Some(FieldMode::Property)
            && fs[i].mode != Some(FieldMode::Properties) by {
            assert(fs[i].mode is None || fs[i].mode == Some(FieldMode::Children));
        }
    }
    if s.children_only {
        assert forall|i: int| 0 <= i < fs.len() implies #[trigger] fs[i].mode is None
            || fs[i].mode == Some(FieldMode::Children) by {
            assert(fs[i].mode != Some(FieldMode::Argument));
            assert(fs[i].mode != Some(FieldMode::Arguments));
            assert(fs[i].mode != Some(FieldMode::Property));
            assert(fs[i].mode != Some(FieldMode::Properties));
        }
    }
}

} // verus!
