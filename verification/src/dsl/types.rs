//! Payload types as the analysis of a table reads them: their shape, the
//! lifetimes they name and the generic parameters they use.

use vstd::prelude::*;

verus! {

/// The shape of a Rust type, as far as the analysis of a table reads it.
#[derive(Debug)]
pub enum TypeShape {
    /// `&'a T` or `&'a mut T`; the lifetime may be left out.
    Reference { lifetime: Option<String>, mutable: bool, referent: Box<TypeShape> },
    /// A path such as `a::B<'x, T>`. `qualified` when it starts with `::` or
    /// has a `<T as Trait>` self type; `nested` holds that self type and the
    /// generic arguments of every segment, in order.
    Path { qualified: bool, segments: Vec<String>, nested: Vec<TypeShape> },
    /// A lifetime written as a generic argument.
    Lifetime(String),
    /// A path in expression position, such as the `N` of `[u8; N]`.
    Value { qualified: bool, segments: Vec<String> },
    /// `(A, B, ...)`
    Tuple(Vec<TypeShape>),
    /// `[T; N]`: the element type, then the paths in the length expression.
    Array { element: Box<TypeShape>, length: Vec<TypeShape> },
    /// `[T]`
    Slice(Box<TypeShape>),
    /// `*const T` or `*mut T`
    Pointer(Box<TypeShape>),
    /// Any other type, with the types nested in it.
    Other(Vec<TypeShape>),
}

/// A generic parameter of a table's events.
#[derive(Debug, PartialEq, Eq)]
pub enum GenericParam {
    /// A lifetime parameter, by its name such as `'a`.
    Lifetime(String),
    /// A type parameter `T`.
    Type(String),
    /// A const parameter `N`.
    Const(String),
}

/// A generic parameter by its kind and name.
pub enum ParamView {
    /// A lifetime parameter.
    Lifetime(Seq<char>),
    /// A type parameter.
    Type(Seq<char>),
    /// A const parameter.
    Const(Seq<char>),
}

impl View for GenericParam {
    type V = ParamView;

    open spec fn view(&self) -> ParamView {
        match self {
            GenericParam::Lifetime(name) => ParamView::Lifetime(name@),
            GenericParam::Type(name) => ParamView::Type(name@),
            GenericParam::Const(name) => ParamView::Const(name@),
        }
    }
}

/// The views of a list of generic parameters.
pub open spec fn param_views(params: Seq<GenericParam>) -> Seq<ParamView> {
    params.map_values(|param: GenericParam| param@)
}

impl GenericParam {
    /// A copy of the parameter.
    pub fn duplicate(&self) -> (copy: GenericParam)
        ensures
            copy == *self,
    {
        match self {
            GenericParam::Lifetime(name) => GenericParam::Lifetime(name.clone()),
            GenericParam::Type(name) => GenericParam::Type(name.clone()),
            GenericParam::Const(name) => GenericParam::Const(name.clone()),
        }
    }
}

/// Whether `params` declare the lifetime `name`.
pub open spec fn declares_lifetime(params: Seq<ParamView>, name: Seq<char>) -> bool {
    params.contains(ParamView::Lifetime(name))
}

/// The parameters with every lifetime of `names` that they do not declare
/// added: the declared lifetimes first, then the added ones in order, then
/// the other parameters; unchanged when nothing is missing.
pub open spec fn with_lifetimes(params: Seq<ParamView>, names: Seq<Seq<char>>) -> Seq<ParamView> {
    let missing = names.filter(|name: Seq<char>| !declares_lifetime(params, name));
    if missing.len() == 0 {
        params
    } else {
        params.filter(|param: ParamView| param is Lifetime) + missing.map_values(
            |name: Seq<char>| ParamView::Lifetime(name),
        ) + params.filter(|param: ParamView| !(param is Lifetime))
    }
}

/// Declares every lifetime of `lifetimes` that `generics` do not declare:
/// the declared lifetimes come first, then the added ones, then the type and
/// const parameters.
pub fn generics_with_lifetimes(generics: Vec<GenericParam>, lifetimes: &Lifetimes) -> (result: Vec<GenericParam>)
    ensures
        param_views(result@) == with_lifetimes(param_views(generics@), lifetimes@),
{
    let ghost params = param_views(generics@);
    let names = lifetimes.as_slice();
    let ghost wanted = lifetimes@;
    let mut missing: Vec<String> = Vec::new();
    let mut index: usize = 0;
    while index < names.len()
        invariant
            names@.len() == wanted.len(),
            forall|i: int| 0 <= i < names@.len() ==> #[trigger] names@[i]@ == wanted[i],
            params == param_views(generics@),
            index <= names.len(),
            name_views(missing@) == wanted.take(index as int).filter(
                |name: Seq<char>| !declares_lifetime(params, name),
            ),
        decreases names.len() - index,
    {
        let ghost before = name_views(missing@);
        let declared = declares_lifetime_in(&generics, &names[index]);
        if !declared {
            missing.push(names[index].clone());
        }
        proof {
            let taken = wanted.take(index + 1);
            assert(taken.drop_last() =~= wanted.take(index as int));
            assert(taken.last() == wanted[index as int]);
            reveal(Seq::filter);
            if !declared {
                assert(name_views(missing@) =~= before.push(wanted[index as int]));
            } else {
                assert(name_views(missing@) =~= before);
            }
        }
        index = index + 1;
    }
    proof {
        assert(wanted.take(index as int) =~= wanted);
    }
    if missing.len() == 0 {
        return generics;
    }
    let mut declared_lifetimes: Vec<GenericParam> = Vec::new();
    let mut others: Vec<GenericParam> = Vec::new();
    let mut position: usize = 0;
    while position < generics.len()
        invariant
            params == param_views(generics@),
            position <= generics.len(),
            param_views(declared_lifetimes@) == params.take(position as int).filter(
                |param: ParamView| param is Lifetime,
            ),
            param_views(others@) == params.take(position as int).filter(
                |param: ParamView| !(param is Lifetime),
            ),
        decreases generics.len() - position,
    {
        let ghost kept = param_views(declared_lifetimes@);
        let ghost rest = param_views(others@);
        let copy = generics[position].duplicate();
        let is_lifetime = match &copy {
            GenericParam::Lifetime(_) => true,
            _ => false,
        };
        if is_lifetime {
            declared_lifetimes.push(copy);
        } else {
            others.push(copy);
        }
        proof {
            let taken = params.take(position + 1);
            assert(taken.drop_last() =~= params.take(position as int));
            assert(taken.last() == params[position as int]);
            reveal(Seq::filter);
            if is_lifetime {
                assert(param_views(declared_lifetimes@) =~= kept.push(params[position as int]));
                assert(param_views(others@) =~= rest);
            } else {
                assert(param_views(others@) =~= rest.push(params[position as int]));
                assert(param_views(declared_lifetimes@) =~= kept);
            }
        }
        position = position + 1;
    }
    proof {
        assert(params.take(position as int) =~= params);
    }
    let mut result = declared_lifetimes;
    let ghost lifetime_views = param_views(result@);
    let mut added: usize = 0;
    while added < missing.len()
        invariant
            added <= missing.len(),
            param_views(result@) == lifetime_views + name_views(missing@).take(added as int).map_values(
                |name: Seq<char>| ParamView::Lifetime(name),
            ),
        decreases missing.len() - added,
    {
        let ghost before = param_views(result@);
        result.push(GenericParam::Lifetime(missing[added].clone()));
        proof {
            let names_taken = name_views(missing@).take(added + 1);
            assert(names_taken.drop_last() =~= name_views(missing@).take(added as int));
            assert(names_taken.last() == missing@[added as int]@);
            assert(param_views(result@) =~= before.push(ParamView::Lifetime(missing@[added as int]@)));
            assert(names_taken.map_values(|name: Seq<char>| ParamView::Lifetime(name)) =~= name_views(
                missing@,
            ).take(added as int).map_values(|name: Seq<char>| ParamView::Lifetime(name)).push(
                ParamView::Lifetime(missing@[added as int]@),
            ));
            assert(param_views(result@) =~= lifetime_views + names_taken.map_values(
                |name: Seq<char>| ParamView::Lifetime(name),
            ));
        }
        added = added + 1;
    }
    let ghost with_added = param_views(result@);
    let ghost rest_views = param_views(others@);
    let mut tail = others;
    result.append(&mut tail);
    proof {
        assert(name_views(missing@).take(added as int) =~= name_views(missing@));
        assert(param_views(result@) =~= with_added + rest_views);
    }
    result
}

/// Declaring lifetimes is idempotent: once added, every lifetime is
/// declared, and adding the same lifetimes again changes nothing.
pub proof fn law_declared_lifetimes_stay_declared(params: Seq<ParamView>, names: Seq<Seq<char>>)
    ensures
        forall|i: int|
            0 <= i < names.len() ==> declares_lifetime(with_lifetimes(params, names), #[trigger] names[i]),
        with_lifetimes(with_lifetimes(params, names), names) == with_lifetimes(params, names),
{
    let result = with_lifetimes(params, names);
    let missing = names.filter(|name: Seq<char>| !declares_lifetime(params, name));
    let lifetimes = params.filter(|param: ParamView| param is Lifetime);
    let added = missing.map_values(|name: Seq<char>| ParamView::Lifetime(name));
    let others = params.filter(|param: ParamView| !(param is Lifetime));
    assert forall|i: int| 0 <= i < names.len() implies declares_lifetime(result, #[trigger] names[i]) by {
        let name = names[i];
        if declares_lifetime(params, name) {
            if missing.len() > 0 {
                let j = choose|j: int| 0 <= j < params.len() && params[j] == ParamView::Lifetime(name);
                params.lemma_filter_contains(|param: ParamView| param is Lifetime, j);
                assert(lifetimes.contains(params[j]));
                let k = choose|k: int| 0 <= k < lifetimes.len() && lifetimes[k] == params[j];
                assert(result[k] == lifetimes[k]);
            }
        } else {
            names.lemma_filter_contains(|name: Seq<char>| !declares_lifetime(params, name), i);
            assert(missing.contains(name));
            let k = choose|k: int| 0 <= k < missing.len() && missing[k] == name;
            assert(result[lifetimes.len() + k] == added[k]);
        }
    }
    let again = names.filter(|name: Seq<char>| !declares_lifetime(result, name));
    assert(again =~= Seq::<Seq<char>>::empty()) by {
        if again.len() > 0 {
            assert(again.contains(again[0]));
            let name = again[0];
            names.lemma_filter_contains_rev(|name: Seq<char>| !declares_lifetime(result, name), name);
            assert(names.contains(name));
            let i = choose|i: int| 0 <= i < names.len() && names[i] == name;
            assert(declares_lifetime(result, names[i]));
        }
    }
}

/// Whether `generics` declare the lifetime `name`.
fn declares_lifetime_in(generics: &Vec<GenericParam>, name: &String) -> (declared: bool)
    ensures
        declared == declares_lifetime(param_views(generics@), name@),
{
    let ghost params = param_views(generics@);
    let mut index: usize = 0;
    while index < generics.len()
        invariant
            params == param_views(generics@),
            forall|i: int| 0 <= i < index ==> params[i] != ParamView::Lifetime(name@),
        decreases generics.len() - index,
    {
        let matches_name = match &generics[index] {
            GenericParam::Lifetime(known) => same_name(known, name),
            _ => false,
        };
        if matches_name {
            assert(params[index as int] == ParamView::Lifetime(name@));
            return true;
        }
        assert(params[index as int] == generics@[index as int]@);
        index = index + 1;
    }
    false
}

/// Whether `ty` mentions the generic parameter `param`: a type parameter as
/// the first segment of an unqualified path, a const parameter as an
/// unqualified single-segment path, a lifetime wherever it appears.
pub open spec fn uses_param(ty: TypeShape, param: GenericParam) -> bool
    decreases ty,
{
    match ty {
        TypeShape::Reference { lifetime, referent, .. } => {
            ||| (param matches GenericParam::Lifetime(name) && lifetime matches Some(found) && found@ == name@)
            ||| uses_param(*referent, param)
        },
        TypeShape::Path { qualified, segments, nested } => {
            ||| (param matches GenericParam::Type(name) && !qualified && segments.len() > 0
                && segments@[0]@ == name@)
            ||| (param matches GenericParam::Const(name) && !qualified && segments.len() == 1
                && segments@[0]@ == name@)
            ||| exists|i: int| 0 <= i < nested.len() && uses_param(#[trigger] nested@[i], param)
        },
        TypeShape::Lifetime(found) => param matches GenericParam::Lifetime(name) && found@ == name@,
        TypeShape::Value { qualified, segments } => param matches GenericParam::Const(name)
            && !qualified && segments.len() == 1 && segments@[0]@ == name@,
        TypeShape::Tuple(elements) => exists|i: int|
            0 <= i < elements.len() && uses_param(#[trigger] elements@[i], param),
        TypeShape::Array { element, length } => {
            ||| uses_param(*element, param)
            ||| exists|i: int| 0 <= i < length.len() && uses_param(#[trigger] length@[i], param)
        },
        TypeShape::Slice(element) => uses_param(*element, param),
        TypeShape::Pointer(element) => uses_param(*element, param),
        TypeShape::Other(nested) => exists|i: int|
            0 <= i < nested.len() && uses_param(#[trigger] nested@[i], param),
    }
}

/// Two types have the same shape: the same variants, names and flags all
/// the way down.
pub open spec fn same_shape(ty: TypeShape, other: TypeShape) -> bool
    decreases ty,
{
    match ty {
        TypeShape::Reference { lifetime, mutable, referent } => other matches TypeShape::Reference {
            lifetime: other_lifetime,
            mutable: other_mutable,
            referent: other_referent,
        } && lifetime == other_lifetime && mutable == other_mutable && same_shape(
            *referent,
            *other_referent,
        ),
        TypeShape::Path { qualified, segments, nested } => other matches TypeShape::Path {
            qualified: other_qualified,
            segments: other_segments,
            nested: other_nested,
        } && qualified == other_qualified && segments@ == other_segments@ && nested.len()
            == other_nested.len() && forall|i: int|
            0 <= i < nested.len() ==> same_shape(#[trigger] nested@[i], other_nested@[i]),
        TypeShape::Lifetime(name) => other matches TypeShape::Lifetime(other_name) && name
            == other_name,
        TypeShape::Value { qualified, segments } => other matches TypeShape::Value {
            qualified: other_qualified,
            segments: other_segments,
        } && qualified == other_qualified && segments@ == other_segments@,
        TypeShape::Tuple(elements) => other matches TypeShape::Tuple(other_elements)
            && elements.len() == other_elements.len() && forall|i: int|
            0 <= i < elements.len() ==> same_shape(#[trigger] elements@[i], other_elements@[i]),
        TypeShape::Array { element, length } => other matches TypeShape::Array {
            element: other_element,
            length: other_length,
        } && same_shape(*element, *other_element) && length.len() == other_length.len()
            && forall|i: int|
            0 <= i < length.len() ==> same_shape(#[trigger] length@[i], other_length@[i]),
        TypeShape::Slice(element) => other matches TypeShape::Slice(other_element) && same_shape(
            *element,
            *other_element,
        ),
        TypeShape::Pointer(element) => other matches TypeShape::Pointer(other_element)
            && same_shape(*element, *other_element),
        TypeShape::Other(nested) => other matches TypeShape::Other(other_nested) && nested.len()
            == other_nested.len() && forall|i: int|
            0 <= i < nested.len() ==> same_shape(#[trigger] nested@[i], other_nested@[i]),
    }
}

/// Copies read the same: a type of the same shape mentions the same generic
/// parameters and names the same lifetimes.
pub proof fn law_same_shapes_read_the_same(ty: TypeShape, copy: TypeShape, param: GenericParam)
    requires
        same_shape(ty, copy),
    ensures
        uses_param(ty, param) == uses_param(copy, param),
        lifetime_scan(ty) == lifetime_scan(copy),
{
    lemma_same_shape_uses(ty, copy, param);
    lemma_same_shape_scan(ty, copy);
}

/// Types of the same shape mention the same parameters.
proof fn lemma_same_shape_uses(ty: TypeShape, copy: TypeShape, param: GenericParam)
    requires
        same_shape(ty, copy),
    ensures
        uses_param(ty, param) == uses_param(copy, param),
    decreases ty,
{
    match (ty, copy) {
        (
            TypeShape::Reference { referent, .. },
            TypeShape::Reference { referent: other, .. },
        ) => {
            lemma_same_shape_uses(*referent, *other, param);
        },
        (
            TypeShape::Path { segments, nested, .. },
            TypeShape::Path { segments: other_segments, nested: other, .. },
        ) => {
            assert(segments.len() == other_segments.len());
            if segments.len() > 0 {
                assert(segments@[0] == other_segments@[0]);
            }
            assert forall|i: int| 0 <= i < nested.len() implies uses_param(
                #[trigger] nested@[i],
                param,
            ) == uses_param(other@[i], param) by {
                lemma_same_shape_uses(nested@[i], other@[i], param);
            }
            lemma_lists_use_alike(nested@, other@, param);
        },
        (TypeShape::Tuple(elements), TypeShape::Tuple(other)) => {
            assert forall|i: int| 0 <= i < elements.len() implies uses_param(
                #[trigger] elements@[i],
                param,
            ) == uses_param(other@[i], param) by {
                lemma_same_shape_uses(elements@[i], other@[i], param);
            }
            lemma_lists_use_alike(elements@, other@, param);
        },
        (
            TypeShape::Array { element, length },
            TypeShape::Array { element: other_element, length: other },
        ) => {
            lemma_same_shape_uses(*element, *other_element, param);
            assert forall|i: int| 0 <= i < length.len() implies uses_param(
                #[trigger] length@[i],
                param,
            ) == uses_param(other@[i], param) by {
                lemma_same_shape_uses(length@[i], other@[i], param);
            }
            lemma_lists_use_alike(length@, other@, param);
        },
        (TypeShape::Slice(element), TypeShape::Slice(other)) => {
            lemma_same_shape_uses(*element, *other, param);
        },
        (TypeShape::Pointer(element), TypeShape::Pointer(other)) => {
            lemma_same_shape_uses(*element, *other, param);
        },
        (TypeShape::Other(nested), TypeShape::Other(other)) => {
            assert forall|i: int| 0 <= i < nested.len() implies uses_param(
                #[trigger] nested@[i],
                param,
            ) == uses_param(other@[i], param) by {
                lemma_same_shape_uses(nested@[i], other@[i], param);
            }
            lemma_lists_use_alike(nested@, other@, param);
        },
        (
            TypeShape::Value { segments, .. },
            TypeShape::Value { segments: other_segments, .. },
        ) => {
            assert(segments.len() == other_segments.len());
            if segments.len() > 0 {
                assert(segments@[0] == other_segments@[0]);
            }
        },
        _ => {},
    }
}

/// Lists whose types mention a parameter alike mention it alike as a whole.
proof fn lemma_lists_use_alike(items: Seq<TypeShape>, copies: Seq<TypeShape>, param: GenericParam)
    requires
        items.len() == copies.len(),
        forall|i: int|
            0 <= i < items.len() ==> uses_param(#[trigger] items[i], param) == uses_param(
                copies[i],
                param,
            ),
    ensures
        any_uses_param(items, param) == any_uses_param(copies, param),
{
    if any_uses_param(items, param) {
        let i = choose|i: int| 0 <= i < items.len() && uses_param(#[trigger] items[i], param);
        assert(uses_param(copies[i], param));
    }
    if any_uses_param(copies, param) {
        let i = choose|i: int| 0 <= i < copies.len() && uses_param(#[trigger] copies[i], param);
        assert(uses_param(items[i], param));
    }
}

/// Types of the same shape name the same lifetimes.
proof fn lemma_same_shape_scan(ty: TypeShape, copy: TypeShape)
    requires
        same_shape(ty, copy),
    ensures
        lifetime_scan(ty) == lifetime_scan(copy),
    decreases ty, 0nat,
{
    match (ty, copy) {
        (TypeShape::Path { nested, .. }, TypeShape::Path { nested: other, .. }) => {
            lemma_same_path_lifetimes(nested@, other@, nested.len() as int);
        },
        (TypeShape::Tuple(elements), TypeShape::Tuple(other)) => {
            lemma_same_elements_scan(elements@, other@, elements.len() as int);
        },
        _ => {},
    }
}

/// Lists of types of the same shapes hold the same lifetime arguments.
proof fn lemma_same_path_lifetimes(items: Seq<TypeShape>, copies: Seq<TypeShape>, count: int)
    requires
        items.len() == copies.len(),
        forall|i: int| 0 <= i < items.len() ==> same_shape(#[trigger] items[i], copies[i]),
    ensures
        path_lifetimes(items, count) == path_lifetimes(copies, count),
    decreases count,
{
    if 0 < count <= items.len() {
        lemma_same_path_lifetimes(items, copies, count - 1);
        assert(same_shape(items[count - 1], copies[count - 1]));
    }
}

/// Tuples of types of the same shapes scan to the same lifetimes.
proof fn lemma_same_elements_scan(items: Seq<TypeShape>, copies: Seq<TypeShape>, count: int)
    requires
        items.len() == copies.len(),
        forall|i: int| 0 <= i < items.len() ==> same_shape(#[trigger] items[i], copies[i]),
    ensures
        elements_lifetime_scan(items, count) == elements_lifetime_scan(copies, count),
    decreases items, count,
{
    if 0 < count <= items.len() {
        lemma_same_elements_scan(items, copies, count - 1);
        lemma_same_shape_scan(items[count - 1], copies[count - 1]);
    }
}

/// A copy of a list of names.
pub fn copy_names(names: &Vec<String>) -> (copy: Vec<String>)
    ensures
        copy@ == names@,
{
    let mut copy: Vec<String> = Vec::new();
    let mut index: usize = 0;
    while index < names.len()
        invariant
            index <= names.len(),
            copy@ == names@.take(index as int),
        decreases names.len() - index,
    {
        copy.push(names[index].clone());
        assert(copy@ =~= names@.take(index + 1));
        index = index + 1;
    }
    assert(names@.take(index as int) =~= names@);
    copy
}

impl TypeShape {
    /// A copy of the type, of the same shape.
    pub fn duplicate(&self) -> (copy: TypeShape)
        ensures
            same_shape(*self, copy),
        decreases self,
    {
        match self {
            TypeShape::Reference { lifetime, mutable, referent } => TypeShape::Reference {
                lifetime: match lifetime {
                    Some(name) => Some(name.clone()),
                    None => None,
                },
                mutable: *mutable,
                referent: Box::new((**referent).duplicate()),
            },
            TypeShape::Path { qualified, segments, nested } => TypeShape::Path {
                qualified: *qualified,
                segments: copy_names(segments),
                nested: duplicate_shapes(nested),
            },
            TypeShape::Lifetime(name) => TypeShape::Lifetime(name.clone()),
            TypeShape::Value { qualified, segments } => TypeShape::Value {
                qualified: *qualified,
                segments: copy_names(segments),
            },
            TypeShape::Tuple(elements) => TypeShape::Tuple(duplicate_shapes(elements)),
            TypeShape::Array { element, length } => TypeShape::Array {
                element: Box::new((**element).duplicate()),
                length: duplicate_shapes(length),
            },
            TypeShape::Slice(element) => TypeShape::Slice(Box::new((**element).duplicate())),
            TypeShape::Pointer(element) => TypeShape::Pointer(Box::new((**element).duplicate())),
            TypeShape::Other(nested) => TypeShape::Other(duplicate_shapes(nested)),
        }
    }
}

/// Copies of a list of types, each of the same shape.
fn duplicate_shapes(items: &Vec<TypeShape>) -> (copy: Vec<TypeShape>)
    ensures
        copy.len() == items.len(),
        forall|i: int| 0 <= i < items.len() ==> same_shape(#[trigger] items@[i], copy@[i]),
    decreases items,
{
    let mut copy: Vec<TypeShape> = Vec::new();
    let mut index: usize = 0;
    while index < items.len()
        invariant
            index <= items.len(),
            copy.len() == index,
            forall|i: int| 0 <= i < index ==> same_shape(#[trigger] items@[i], copy@[i]),
        decreases items.len() - index,
    {
        copy.push(items[index].duplicate());
        index = index + 1;
    }
    copy
}

/// Whether some type of `items` mentions `param`.
pub open spec fn any_uses_param(items: Seq<TypeShape>, param: GenericParam) -> bool {
    exists|i: int| 0 <= i < items.len() && uses_param(#[trigger] items[i], param)
}

/// Whether two names written as `String`s are equal.
fn same_name(name: &String, other: &String) -> (same: bool)
    ensures
        same == (name@ == other@),
{
    *name == *other
}

/// Reports whether `ty` mentions the generic parameter `param`: a type
/// parameter as the first segment of an unqualified path, a const parameter
/// as an unqualified single-segment path, a lifetime wherever it appears.
pub fn type_uses_generic_param(ty: &TypeShape, param: &GenericParam) -> (used: bool)
    ensures
        used == uses_param(*ty, *param),
    decreases ty,
{
    match ty {
        TypeShape::Reference { lifetime, referent, .. } => {
            let named = match (param, lifetime) {
                (GenericParam::Lifetime(name), Some(found)) => same_name(found, name),
                _ => false,
            };
            named || type_uses_generic_param(referent, param)
        },
        TypeShape::Path { qualified, segments, nested } => {
            let head = match param {
                GenericParam::Type(name) => !*qualified && segments.len() > 0 && same_name(
                    &segments[0],
                    name,
                ),
                GenericParam::Const(name) => !*qualified && segments.len() == 1 && same_name(
                    &segments[0],
                    name,
                ),
                GenericParam::Lifetime(_) => false,
            };
            head || types_use_generic_param(nested, param)
        },
        TypeShape::Lifetime(found) => match param {
            GenericParam::Lifetime(name) => same_name(found, name),
            _ => false,
        },
        TypeShape::Value { qualified, segments } => match param {
            GenericParam::Const(name) => !*qualified && segments.len() == 1 && same_name(
                &segments[0],
                name,
            ),
            _ => false,
        },
        TypeShape::Tuple(elements) => types_use_generic_param(elements, param),
        TypeShape::Array { element, length } => {
            type_uses_generic_param(element, param) || types_use_generic_param(length, param)
        },
        TypeShape::Slice(element) => type_uses_generic_param(element, param),
        TypeShape::Pointer(element) => type_uses_generic_param(element, param),
        TypeShape::Other(nested) => types_use_generic_param(nested, param),
    }
}

/// Reports whether some type of `items` mentions `param`.
fn types_use_generic_param(items: &Vec<TypeShape>, param: &GenericParam) -> (used: bool)
    ensures
        used == any_uses_param(items@, *param),
    decreases items,
{
    let mut index: usize = 0;
    while index < items.len()
        invariant
            forall|j: int| 0 <= j < index ==> !uses_param(#[trigger] items@[j], *param),
        decreases items.len() - index,
    {
        if type_uses_generic_param(&items[index], param) {
            return true;
        }
        index = index + 1;
    }
    false
}

/// `names` with `name` added at the end, unless it is already there.
pub open spec fn insert_name(names: Seq<Seq<char>>, name: Seq<char>) -> Seq<Seq<char>> {
    if names.contains(name) {
        names
    } else {
        names.push(name)
    }
}

/// `names` with each of `added` inserted in turn.
pub open spec fn insert_names(names: Seq<Seq<char>>, added: Seq<Seq<char>>) -> Seq<Seq<char>>
    decreases added.len(),
{
    if added.len() == 0 {
        names
    } else {
        insert_name(insert_names(names, added.drop_last()), added.last())
    }
}

/// The views of a sequence of names.
pub open spec fn name_views(names: Seq<String>) -> Seq<Seq<char>> {
    names.map_values(|name: String| name@)
}

/// The lifetimes named by a type's own generic arguments and references, in
/// order, and whether the scan stopped at a reference without a lifetime.
/// Only a reference's own lifetime, the lifetime arguments of a path and the
/// elements of a tuple are read.
pub open spec fn lifetime_scan(ty: TypeShape) -> (Seq<Seq<char>>, bool)
    decreases ty, 0nat,
{
    match ty {
        TypeShape::Reference { lifetime, .. } => match lifetime {
            Some(name) => (seq![name@], false),
            None => (Seq::empty(), true),
        },
        TypeShape::Path { nested, .. } => (path_lifetimes(nested@, nested.len() as int), false),
        TypeShape::Tuple(elements) => elements_lifetime_scan(elements@, elements.len() as int),
        _ => (Seq::empty(), false),
    }
}

/// The lifetime scan of the first `count` elements of a tuple: it stops at
/// the first element whose scan stops.
pub open spec fn elements_lifetime_scan(elements: Seq<TypeShape>, count: int) -> (
    Seq<Seq<char>>,
    bool,
)
    decreases elements, count,
{
    if count <= 0 || count > elements.len() {
        (Seq::empty(), false)
    } else {
        let (before, failed) = elements_lifetime_scan(elements, count - 1);
        if failed {
            (before, true)
        } else {
            let (found, stopped) = lifetime_scan(elements[count - 1]);
            (before + found, stopped)
        }
    }
}

/// The lifetime arguments among the first `count` nested items of a path.
pub open spec fn path_lifetimes(nested: Seq<TypeShape>, count: int) -> Seq<Seq<char>>
    decreases count,
{
    if count <= 0 || count > nested.len() {
        Seq::empty()
    } else {
        match nested[count - 1] {
            TypeShape::Lifetime(name) => path_lifetimes(nested, count - 1).push(name@),
            _ => path_lifetimes(nested, count - 1),
        }
    }
}

/// A reference without a lifetime was met where the lifetimes of an event or
/// state payload are collected.
#[derive(Debug, Clone, Copy, PartialEq, Eq, Structural)]
pub struct MissingLifetime;

impl MissingLifetime {
    /// The message reported for the error.
    pub fn message(&self) -> (text: &'static str)
        ensures
            text@ == "This event's data lifetime is not defined, consider adding a lifetime."@,
    {
        "This event's data lifetime is not defined, consider adding a lifetime."
    }
}

/// The lifetimes written as generic arguments: each followed by a comma,
/// separated by spaces, as in `'a , 'b ,`; nothing for none.
pub open spec fn lifetime_list_text(names: Seq<Seq<char>>) -> Seq<char>
    decreases names.len(),
{
    if names.len() == 0 {
        Seq::empty()
    } else if names.len() == 1 {
        names[0] + " ,"@
    } else {
        lifetime_list_text(names.drop_last()) + " "@ + names.last() + " ,"@
    }
}

/// The lifetimes named by payload types, each once, in the order first met.
#[derive(Debug)]
pub struct Lifetimes {
    lifetimes: Vec<String>,
}

impl View for Lifetimes {
    type V = Seq<Seq<char>>;

    closed spec fn view(&self) -> Seq<Seq<char>> {
        name_views(self.lifetimes@)
    }
}

impl Lifetimes {
    /// An empty collection.
    pub fn new() -> (lifetimes: Lifetimes)
        ensures
            lifetimes@ == Seq::<Seq<char>>::empty(),
    {
        let lifetimes = Lifetimes { lifetimes: Vec::new() };
        assert(lifetimes@ =~= Seq::<Seq<char>>::empty());
        lifetimes
    }

    /// Whether `lifetime` is already collected.
    fn contains(&self, lifetime: &String) -> (found: bool)
        ensures
            found == self@.contains(lifetime@),
    {
        let mut index: usize = 0;
        while index < self.lifetimes.len()
            invariant
                forall|j: int| 0 <= j < index ==> self@[j] != lifetime@,
                self@.len() == self.lifetimes@.len(),
            decreases self.lifetimes.len() - index,
        {
            if same_name(&self.lifetimes[index], lifetime) {
                assert(self@[index as int] == lifetime@);
                return true;
            }
            index = index + 1;
        }
        false
    }

    /// Adds `lifetime` at the end unless it is already collected.
    pub fn insert(&mut self, lifetime: &String)
        ensures
            final(self)@ == insert_name(old(self)@, lifetime@),
    {
        if !self.contains(lifetime) {
            self.lifetimes.push(lifetime.clone());
            assert(self@ =~= old(self)@.push(lifetime@));
        }
    }

    /// Adds each lifetime of `other`, in order, unless already collected.
    pub fn extend(&mut self, other: &Lifetimes)
        ensures
            final(self)@ == insert_names(old(self)@, other@),
    {
        let mut index: usize = 0;
        while index < other.lifetimes.len()
            invariant
                other@.len() == other.lifetimes@.len(),
                index <= other.lifetimes.len(),
                self@ == insert_names(old(self)@, other@.take(index as int)),
            decreases other.lifetimes.len() - index,
        {
            self.insert(&other.lifetimes[index]);
            assert(other@.take(index + 1).drop_last() =~= other@.take(index as int));
            index = index + 1;
        }
        assert(other@.take(index as int) =~= other@);
    }

    /// Whether no lifetime is collected.
    pub fn is_empty(&self) -> (empty: bool)
        ensures
            empty == (self@.len() == 0),
    {
        self.lifetimes.len() == 0
    }

    /// The lifetimes written as generic arguments, each followed by a comma:
    /// `'a , 'b ,`, or nothing when there are none.
    pub fn to_token_text(&self) -> (text: String)
        ensures
            text@ == lifetime_list_text(self@),
    {
        let mut text = String::new();
        let mut index: usize = 0;
        while index < self.lifetimes.len()
            invariant
                index <= self.lifetimes.len(),
                self@.len() == self.lifetimes@.len(),
                text@ == lifetime_list_text(self@.take(index as int)),
            decreases self.lifetimes.len() - index,
        {
            let ghost before = text@;
            if index > 0 {
                text.append(" ");
            }
            text.append(self.lifetimes[index].as_str());
            text.append(" ,");
            proof {
                let taken = self@.take(index + 1);
                assert(taken.drop_last() =~= self@.take(index as int));
                assert(taken.last() == self@[index as int]);
                if index == 0 {
                    assert(text@ =~= taken[0] + " ,"@);
                } else {
                    assert(text@ =~= before + " "@ + taken.last() + " ,"@);
                }
            }
            index = index + 1;
        }
        assert(self@.take(index as int) =~= self@);
        text
    }

    /// The collected lifetimes, in order.
    pub fn as_slice(&self) -> (lifetimes: &[String])
        ensures
            lifetimes@.len() == self@.len(),
            forall|i: int| 0 <= i < lifetimes@.len() ==> #[trigger] lifetimes@[i]@ == self@[i],
    {
        self.lifetimes.as_slice()
    }

    /// The lifetimes of a payload type; fails on a reference without one.
    pub fn from_type(data_type: &TypeShape) -> (result: Result<Lifetimes, MissingLifetime>)
        ensures
            result is Err <==> lifetime_scan(*data_type).1,
            result matches Ok(lifetimes) ==> lifetimes@ == insert_names(
                Seq::empty(),
                lifetime_scan(*data_type).0,
            ),
    {
        let mut lifetimes = Lifetimes::new();
        match lifetimes.insert_from_type(data_type) {
            Ok(()) => Ok(lifetimes),
            Err(missing) => Err(missing),
        }
    }

    /// Adds the lifetimes of a payload type, in order, stopping with an
    /// error at a reference that names none; those met before it stay added.
    pub fn insert_from_type(&mut self, data_type: &TypeShape) -> (result: Result<(), MissingLifetime>)
        ensures
            result is Err <==> lifetime_scan(*data_type).1,
            final(self)@ == insert_names(old(self)@, lifetime_scan(*data_type).0),
        decreases data_type, 0nat,
    {
        match data_type {
            TypeShape::Reference { lifetime, .. } => match lifetime {
                Some(name) => {
                    self.insert(name);
                    proof {
                        assert(seq![name@].drop_last() =~= Seq::<Seq<char>>::empty());
                        assert(insert_names(old(self)@, Seq::<Seq<char>>::empty()) == old(self)@);
                    }
                    Ok(())
                },
                None => Err(MissingLifetime),
            },
            TypeShape::Path { nested, .. } => {
                let mut index: usize = 0;
                while index < nested.len()
                    invariant
                        index <= nested.len(),
                        self@ == insert_names(old(self)@, path_lifetimes(nested@, index as int)),
                    decreases nested.len() - index,
                {
                    match &nested[index] {
                        TypeShape::Lifetime(name) => {
                            self.insert(name);
                            proof {
                                let before = path_lifetimes(nested@, index as int);
                                assert(path_lifetimes(nested@, index + 1) == before.push(name@));
                                assert(before.push(name@).drop_last() =~= before);
                            }
                        },
                        _ => {},
                    }
                    index = index + 1;
                }
                Ok(())
            },
            TypeShape::Tuple(elements) => self.insert_from_elements(elements),
            _ => Ok(()),
        }
    }

    /// Adds the lifetimes of the elements of a tuple type, in order.
    fn insert_from_elements(&mut self, elements: &Vec<TypeShape>) -> (result: Result<(), MissingLifetime>)
        ensures
            result is Err <==> elements_lifetime_scan(elements@, elements.len() as int).1,
            final(self)@ == insert_names(
                old(self)@,
                elements_lifetime_scan(elements@, elements.len() as int).0,
            ),
        decreases elements, 1nat,
    {
        let mut index: usize = 0;
        while index < elements.len()
            invariant
                index <= elements.len(),
                !elements_lifetime_scan(elements@, index as int).1,
                self@ == insert_names(old(self)@, elements_lifetime_scan(elements@, index as int).0),
            decreases elements.len() - index,
        {
            let ghost before = self@;
            let result = self.insert_from_type(&elements[index]);
            proof {
                lemma_insert_names_append(
                    old(self)@,
                    elements_lifetime_scan(elements@, index as int).0,
                    lifetime_scan(elements@[index as int]).0,
                );
            }
            if result.is_err() {
                proof {
                    lemma_scan_stops(elements@, index + 1, elements.len() as int);
                }
                return result;
            }
            index = index + 1;
        }
        Ok(())
    }

    /// The lifetimes of `self` that `other` does not hold, in order.
    pub fn difference(&self, other: &Lifetimes) -> (rest: Lifetimes)
        ensures
            rest@ == self@.filter(|name: Seq<char>| !other@.contains(name)),
    {
        let mut rest = Lifetimes::new();
        let mut index: usize = 0;
        while index < self.lifetimes.len()
            invariant
                index <= self.lifetimes.len(),
                self@.len() == self.lifetimes@.len(),
                rest@ == self@.take(index as int).filter(|name: Seq<char>| !other@.contains(name)),
            decreases self.lifetimes.len() - index,
        {
            let ghost kept = rest@;
            if !other.contains(&self.lifetimes[index]) {
                rest.lifetimes.push(self.lifetimes[index].clone());
                assert(rest@ =~= kept.push(self@[index as int]));
            }
            proof {
                let taken = self@.take(index + 1);
                assert(taken.drop_last() =~= self@.take(index as int));
                assert(taken.last() == self@[index as int]);
                reveal(Seq::filter);
            }
            index = index + 1;
        }
        assert(self@.take(index as int) =~= self@);
        rest
    }
}

/// Once the scan of a tuple's elements has stopped, scanning further
/// elements changes nothing.
proof fn lemma_scan_stops(elements: Seq<TypeShape>, count: int, later: int)
    requires
        0 <= count <= later <= elements.len(),
        elements_lifetime_scan(elements, count).1,
    ensures
        elements_lifetime_scan(elements, later) == elements_lifetime_scan(elements, count),
    decreases later - count,
{
    if later > count {
        lemma_scan_stops(elements, count, later - 1);
    }
}

impl core::ops::Sub<&Lifetimes> for Lifetimes {
    type Output = Lifetimes;

    /// The lifetimes of `self` that `rhs` does not hold, in order.
    fn sub(self, rhs: &Lifetimes) -> (rest: Lifetimes)
        ensures
            rest@ == self@.filter(|name: Seq<char>| !rhs@.contains(name)),
    {
        self.difference(rhs)
    }
}

impl core::ops::Sub for Lifetimes {
    type Output = Lifetimes;

    /// The lifetimes of `self` that `rhs` does not hold, in order.
    fn sub(self, rhs: Lifetimes) -> (rest: Lifetimes)
        ensures
            rest@ == self@.filter(|name: Seq<char>| !rhs@.contains(name)),
    {
        self.difference(&rhs)
    }
}

impl core::ops::Sub<&Lifetimes> for &Lifetimes {
    type Output = Lifetimes;

    /// The lifetimes of `self` that `rhs` does not hold, in order.
    fn sub(self, rhs: &Lifetimes) -> (rest: Lifetimes)
        ensures
            rest@ == self@.filter(|name: Seq<char>| !rhs@.contains(name)),
    {
        self.difference(rhs)
    }
}

impl core::ops::Sub<Lifetimes> for &Lifetimes {
    type Output = Lifetimes;

    /// The lifetimes of `self` that `rhs` does not hold, in order.
    fn sub(self, rhs: Lifetimes) -> (rest: Lifetimes)
        ensures
            rest@ == self@.filter(|name: Seq<char>| !rhs@.contains(name)),
    {
        self.difference(&rhs)
    }
}

// The value of a difference is stated over views in each `sub` below; the
// operator's generic value contract, which would compare values holding
// vectors, is left off.
impl vstd::std_specs::ops::SubSpecImpl<&Lifetimes> for Lifetimes {
    open spec fn obeys_sub_spec() -> bool {
        false
    }

    open spec fn sub_req(self, rhs: &Lifetimes) -> bool {
        true
    }

    open spec fn sub_spec(self, rhs: &Lifetimes) -> Lifetimes {
        self
    }
}

impl vstd::std_specs::ops::SubSpecImpl for Lifetimes {
    open spec fn obeys_sub_spec() -> bool {
        false
    }

    open spec fn sub_req(self, rhs: Lifetimes) -> bool {
        true
    }

    open spec fn sub_spec(self, rhs: Lifetimes) -> Lifetimes {
        self
    }
}

impl vstd::std_specs::ops::SubSpecImpl<&Lifetimes> for &Lifetimes {
    open spec fn obeys_sub_spec() -> bool {
        false
    }

    open spec fn sub_req(self, rhs: &Lifetimes) -> bool {
        true
    }

    open spec fn sub_spec(self, rhs: &Lifetimes) -> Lifetimes {
        *self
    }
}

impl vstd::std_specs::ops::SubSpecImpl<Lifetimes> for &Lifetimes {
    open spec fn obeys_sub_spec() -> bool {
        false
    }

    open spec fn sub_req(self, rhs: Lifetimes) -> bool {
        true
    }

    open spec fn sub_spec(self, rhs: Lifetimes) -> Lifetimes {
        *self
    }
}

/// Inserting two runs of names one after the other is inserting their
/// concatenation.
proof fn lemma_insert_names_append(names: Seq<Seq<char>>, first: Seq<Seq<char>>, second: Seq<Seq<char>>)
    ensures
        insert_names(insert_names(names, first), second) == insert_names(names, first + second),
    decreases second.len(),
{
    if second.len() == 0 {
        assert(first + second =~= first);
    } else {
        lemma_insert_names_append(names, first, second.drop_last());
        assert((first + second).drop_last() =~= first + second.drop_last());
        assert((first + second).last() == second.last());
    }
}

/// Inserting names never records one twice, keeps every name already there
/// and records every name it is given; this holds of collected lifetimes and
/// of the states and events a table names.
pub proof fn law_inserted_names_are_distinct(names: Seq<Seq<char>>, added: Seq<Seq<char>>)
    requires
        names.no_duplicates(),
    ensures
        insert_names(names, added).no_duplicates(),
        forall|i: int| 0 <= i < added.len() ==> insert_names(names, added).contains(#[trigger] added[i]),
        forall|i: int| 0 <= i < names.len() ==> insert_names(names, added).contains(#[trigger] names[i]),
    decreases added.len(),
{
    if added.len() > 0 {
        law_inserted_names_are_distinct(names, added.drop_last());
        let before = insert_names(names, added.drop_last());
        if !before.contains(added.last()) {
            assert forall|i: int, j: int| 0 <= i < j < before.push(added.last()).len() implies before.push(
                added.last(),
            )[i] != before.push(added.last())[j] by {
                if j == before.len() {
                    assert(before.push(added.last())[i] == before[i]);
                }
            }
        }
        lemma_insert_name_keeps(before, added.last());
        assert forall|i: int| 0 <= i < added.len() implies insert_names(names, added).contains(
            #[trigger] added[i],
        ) by {
            if i < added.len() - 1 {
                assert(added.drop_last()[i] == added[i]);
                assert(before.contains(added[i]));
            }
        }
        assert forall|i: int| 0 <= i < names.len() implies insert_names(names, added).contains(
            #[trigger] names[i],
        ) by {
            assert(before.contains(names[i]));
        }
    }
}

/// Inserting a name keeps every name already there and adds the new one.
proof fn lemma_insert_name_keeps(names: Seq<Seq<char>>, name: Seq<char>)
    ensures
        insert_name(names, name).contains(name),
        forall|other: Seq<char>| names.contains(other) ==> #[trigger] insert_name(names, name).contains(other),
{
    if !names.contains(name) {
        assert(names.push(name)[names.len() as int] == name);
        assert forall|other: Seq<char>| names.contains(other) implies #[trigger] names.push(name).contains(other) by {
            let j = choose|j: int| 0 <= j < names.len() && names[j] == other;
            assert(names.push(name)[j] == other);
        }
    }
}

/// A payload type: its text as written, by which types are compared, and its
/// shape.
#[derive(Debug)]
pub struct DataType {
    /// The type as written, in canonical token spacing.
    pub text: String,
    /// The type's shape.
    pub shape: TypeShape,
}

/// `copy` is a copy of the payload type `data_type`: the same text and a
/// type of the same shape.
pub open spec fn same_data_type(data_type: DataType, copy: DataType) -> bool {
    copy.text == data_type.text && same_shape(data_type.shape, copy.shape)
}

/// `copy` is a copy of the optional payload type `data_type`.
pub open spec fn same_optional_data(data_type: Option<DataType>, copy: Option<DataType>) -> bool {
    match data_type {
        Some(original) => copy matches Some(copied) && same_data_type(original, copied),
        None => copy is None,
    }
}

impl DataType {
    /// A copy of the payload type.
    pub fn duplicate(&self) -> (copy: DataType)
        ensures
            same_data_type(*self, copy),
    {
        DataType { text: self.text.clone(), shape: self.shape.duplicate() }
    }
}

/// A copy of an optional payload type.
pub fn duplicate_data(data_type: &Option<DataType>) -> (copy: Option<DataType>)
    ensures
        same_optional_data(*data_type, copy),
{
    match data_type {
        Some(original) => Some(original.duplicate()),
        None => None,
    }
}

/// Why a payload type could not be recorded.
#[derive(Debug, Clone, Copy, PartialEq, Eq, Structural)]
pub enum DataError {
    /// The name was given a different type before, or a type before and now
    /// none.
    Conflict,
    /// The type holds a reference that names no lifetime.
    MissingLifetime,
}

/// What a `DataDefinitions` records: the type text of each name, every
/// lifetime in order, and the lifetimes of each name whose type has any.
pub struct DataView {
    /// The type text recorded for each name.
    pub types: Map<Seq<char>, Seq<char>>,
    /// All lifetimes of the recorded types, each once, in the order met.
    pub all_lifetimes: Seq<Seq<char>>,
    /// The lifetimes of each name whose type names some.
    pub lifetimes: Map<Seq<char>, Seq<Seq<char>>>,
}

/// The map that a list of keyed entries describes, a later entry for a key
/// replacing an earlier one.
pub open spec fn keyed_map<V>(entries: Seq<(Seq<char>, V)>) -> Map<Seq<char>, V>
    decreases entries.len(),
{
    if entries.len() == 0 {
        Map::empty()
    } else {
        keyed_map(entries.drop_last()).insert(entries.last().0, entries.last().1)
    }
}

/// No key occurs twice among the entries.
pub open spec fn distinct_keys<V>(entries: Seq<(Seq<char>, V)>) -> bool {
    forall|i: int, j: int| 0 <= i < j < entries.len() ==> entries[i].0 != entries[j].0
}

/// Looking a key up in the entries.
proof fn lemma_keyed_lookup<V>(entries: Seq<(Seq<char>, V)>, key: Seq<char>)
    requires
        distinct_keys(entries),
    ensures
        keyed_map(entries).contains_key(key) <==> exists|i: int|
            0 <= i < entries.len() && (#[trigger] entries[i]).0 == key,
        forall|i: int|
            0 <= i < entries.len() && (#[trigger] entries[i]).0 == key ==> keyed_map(entries)[key]
                == entries[i].1,
    decreases entries.len(),
{
    if entries.len() > 0 {
        let rest = entries.drop_last();
        assert(distinct_keys(rest));
        lemma_keyed_lookup(rest, key);
        if rest.len() > 0 {
            assert forall|i: int| 0 <= i < rest.len() implies #[trigger] rest[i] == entries[i] by {}
        }
        if keyed_map(entries).contains_key(key) && entries.last().0 != key {
            let i = choose|i: int| 0 <= i < rest.len() && (#[trigger] rest[i]).0 == key;
            assert(entries[i].0 == key);
        }
        if exists|i: int| 0 <= i < entries.len() && (#[trigger] entries[i]).0 == key {
            let i = choose|i: int| 0 <= i < entries.len() && (#[trigger] entries[i]).0 == key;
            if i < entries.len() - 1 {
                assert(rest[i].0 == key);
            }
        }
    }
}

/// Replacing the entry of a key replaces that key's value in the map.
proof fn lemma_keyed_update<V>(entries: Seq<(Seq<char>, V)>, index: int, value: V)
    requires
        distinct_keys(entries),
        0 <= index < entries.len(),
    ensures
        distinct_keys(entries.update(index, (entries[index].0, value))),
        keyed_map(entries.update(index, (entries[index].0, value))) == keyed_map(entries).insert(
            entries[index].0,
            value,
        ),
    decreases entries.len(),
{
    let key = entries[index].0;
    let updated = entries.update(index, (key, value));
    assert forall|i: int, j: int| 0 <= i < j < updated.len() implies updated[i].0 != updated[j].0 by {
        assert(updated[i].0 == entries[i].0);
        assert(updated[j].0 == entries[j].0);
    }
    if index == entries.len() - 1 {
        assert(updated.drop_last() =~= entries.drop_last());
        assert(keyed_map(updated) =~= keyed_map(entries).insert(key, value));
    } else {
        let rest = entries.drop_last();
        assert(distinct_keys(rest));
        lemma_keyed_update(rest, index, value);
        assert(updated.drop_last() =~= rest.update(index, (key, value)));
        assert(entries.last().0 != key);
        assert(keyed_map(updated) =~= keyed_map(entries).insert(key, value));
    }
}

/// Adding an entry for a new key keeps the keys distinct.
proof fn lemma_keyed_push<V>(entries: Seq<(Seq<char>, V)>, key: Seq<char>, value: V)
    requires
        distinct_keys(entries),
        forall|i: int| 0 <= i < entries.len() ==> (#[trigger] entries[i]).0 != key,
    ensures
        distinct_keys(entries.push((key, value))),
        keyed_map(entries.push((key, value))) == keyed_map(entries).insert(key, value),
{
    let pushed = entries.push((key, value));
    assert(pushed.drop_last() =~= entries);
    assert forall|i: int, j: int| 0 <= i < j < pushed.len() implies pushed[i].0 != pushed[j].0 by {
        assert(pushed[i] == entries[i]);
        if j < entries.len() {
            assert(pushed[j] == entries[j]);
        }
    }
}

/// The outcome of recording the payload type `data` under `key`: a name
/// keeps the first type it was given, so a different type, or none after
/// one, is a conflict; a type with a reference that names no lifetime is
/// refused; otherwise the type is recorded with its lifetimes.
pub open spec fn collect_step(defs: DataView, key: Seq<char>, data: Option<DataType>) -> Result<
    DataView,
    DataError,
> {
    if defs.types.contains_key(key) && (data is None || data->0.text@ != defs.types[key]) {
        Err(DataError::Conflict)
    } else {
        match data {
            None => Ok(defs),
            Some(data_type) => {
                let (found, stopped) = lifetime_scan(data_type.shape);
                if stopped {
                    Err(DataError::MissingLifetime)
                } else {
                    let lifetimes = insert_names(Seq::empty(), found);
                    Ok(
                        DataView {
                            types: defs.types.insert(key, data_type.text@),
                            all_lifetimes: insert_names(defs.all_lifetimes, lifetimes),
                            lifetimes: if lifetimes.len() > 0 {
                                defs.lifetimes.insert(key, lifetimes)
                            } else {
                                defs.lifetimes
                            },
                        },
                    )
                }
            },
        }
    }
}

/// The payload types recorded for states or events, by name, with the
/// lifetimes they name.
#[derive(Debug)]
pub struct DataDefinitions {
    data_types: Vec<(String, String)>,
    all_lifetimes: Lifetimes,
    lifetimes: Vec<(String, Lifetimes)>,
}

impl View for DataDefinitions {
    type V = DataView;

    closed spec fn view(&self) -> DataView {
        DataView {
            types: keyed_map(self.type_entries()),
            all_lifetimes: self.all_lifetimes@,
            lifetimes: keyed_map(self.lifetime_entries()),
        }
    }
}

impl DataDefinitions {
    /// The recorded types as keyed entries.
    closed spec fn type_entries(&self) -> Seq<(Seq<char>, Seq<char>)> {
        self.data_types@.map_values(|entry: (String, String)| (entry.0@, entry.1@))
    }

    /// The recorded lifetimes as keyed entries.
    closed spec fn lifetime_entries(&self) -> Seq<(Seq<char>, Seq<Seq<char>>)> {
        self.lifetimes@.map_values(|entry: (String, Lifetimes)| (entry.0@, entry.1@))
    }

    /// Keys are recorded once.
    pub closed spec fn wf(&self) -> bool {
        &&& distinct_keys(self.type_entries())
        &&& distinct_keys(self.lifetime_entries())
    }

    /// Nothing recorded.
    pub fn new() -> (definitions: DataDefinitions)
        ensures
            definitions.wf(),
            definitions@.types == Map::<Seq<char>, Seq<char>>::empty(),
            definitions@.all_lifetimes == Seq::<Seq<char>>::empty(),
            definitions@.lifetimes == Map::<Seq<char>, Seq<Seq<char>>>::empty(),
    {
        let definitions = DataDefinitions {
            data_types: Vec::new(),
            all_lifetimes: Lifetimes::new(),
            lifetimes: Vec::new(),
        };
        assert(definitions.type_entries() =~= Seq::empty());
        assert(definitions.lifetime_entries() =~= Seq::empty());
        definitions
    }

    /// Where `key`'s type is recorded.
    fn type_index(&self, key: &String) -> (index: Option<usize>)
        requires
            self.wf(),
        ensures
            index matches Some(i) ==> i < self.data_types@.len() && self.type_entries()[i as int].0
                == key@,
            index is None ==> forall|i: int|
                0 <= i < self.data_types@.len() ==> (#[trigger] self.type_entries()[i]).0 != key@,
    {
        let mut index: usize = 0;
        while index < self.data_types.len()
            invariant
                forall|i: int| 0 <= i < index ==> (#[trigger] self.type_entries()[i]).0 != key@,
            decreases self.data_types.len() - index,
        {
            if same_name(&self.data_types[index].0, key) {
                return Some(index);
            }
            index = index + 1;
        }
        None
    }

    /// Where `key`'s lifetimes are recorded.
    fn lifetimes_index(&self, key: &String) -> (index: Option<usize>)
        requires
            self.wf(),
        ensures
            index matches Some(i) ==> i < self.lifetimes@.len() && self.lifetime_entries()[i as int].0
                == key@,
            index is None ==> forall|i: int|
                0 <= i < self.lifetimes@.len() ==> (#[trigger] self.lifetime_entries()[i]).0 != key@,
    {
        let mut index: usize = 0;
        while index < self.lifetimes.len()
            invariant
                forall|i: int| 0 <= i < index ==> (#[trigger] self.lifetime_entries()[i]).0 != key@,
            decreases self.lifetimes.len() - index,
        {
            if same_name(&self.lifetimes[index].0, key) {
                return Some(index);
            }
            index = index + 1;
        }
        None
    }

    /// The number of names with a recorded type.
    pub fn len(&self) -> (count: usize)
        requires
            self.wf(),
        ensures
            count == self@.types.len(),
    {
        proof {
            self.lemma_types_len();
        }
        self.data_types.len()
    }

    /// The recorded type count is the number of entries.
    proof fn lemma_types_len(&self)
        requires
            self.wf(),
        ensures
            self@.types.len() == self.data_types@.len(),
    {
        lemma_keyed_len(self.type_entries());
    }

    /// The type recorded for `key`, as written, if any.
    pub fn data_type(&self, key: &String) -> (found: Option<&String>)
        requires
            self.wf(),
        ensures
            found is Some <==> self@.types.contains_key(key@),
            found matches Some(text) ==> text@ == self@.types[key@],
    {
        let index = self.type_index(key);
        proof {
            lemma_keyed_lookup(self.type_entries(), key@);
        }
        match index {
            Some(i) => {
                assert(self.type_entries()[i as int].0 == key@);
                Some(&self.data_types[i].1)
            },
            None => None,
        }
    }

    /// The lifetimes recorded for `key`, if its type names any.
    pub fn lifetimes_of(&self, key: &String) -> (found: Option<&Lifetimes>)
        requires
            self.wf(),
        ensures
            found is Some <==> self@.lifetimes.contains_key(key@),
            found matches Some(lifetimes) ==> lifetimes@ == self@.lifetimes[key@],
    {
        let index = self.lifetimes_index(key);
        proof {
            lemma_keyed_lookup(self.lifetime_entries(), key@);
        }
        match index {
            Some(i) => {
                assert(self.lifetime_entries()[i as int].0 == key@);
                Some(&self.lifetimes[i].1)
            },
            None => None,
        }
    }

    /// Every lifetime of the recorded types, each once, in the order met.
    pub fn all_lifetimes(&self) -> (lifetimes: &Lifetimes)
        ensures
            lifetimes@ == self@.all_lifetimes,
    {
        &self.all_lifetimes
    }

    /// Records the payload type `data_type` under `key`, as `collect_step`
    /// describes; on an error nothing changes.
    pub fn collect(&mut self, key: String, data_type: Option<DataType>) -> (result: Result<(), DataError>)
        requires
            old(self).wf(),
        ensures
            final(self).wf(),
            match collect_step(old(self)@, key@, data_type) {
                Ok(defs) => result is Ok && final(self)@ == defs,
                Err(error) => result == Err::<(), DataError>(error) && final(self)@ == old(self)@,
            },
    {
        self.record(key, data_type.as_ref())
    }

    /// `collect` for a payload type that stays with its owner.
    pub fn record(&mut self, key: String, data_type: Option<&DataType>) -> (result: Result<(), DataError>)
        requires
            old(self).wf(),
        ensures
            final(self).wf(),
            match collect_step(
                old(self)@,
                key@,
                match data_type {
                    Some(t) => Some(*t),
                    None => None,
                },
            ) {
                Ok(defs) => result is Ok && final(self)@ == defs,
                Err(error) => result == Err::<(), DataError>(error) && final(self)@ == old(self)@,
            },
    {
        let found = self.type_index(&key);
        proof {
            lemma_keyed_lookup(self.type_entries(), key@);
        }
        if let Some(i) = found {
            assert(self.type_entries()[i as int].0 == key@);
            let conflict = match data_type {
                Some(new_type) => !same_name(&self.data_types[i].1, &new_type.text),
                None => true,
            };
            if conflict {
                return Err(DataError::Conflict);
            }
        }
        match data_type {
            None => Ok(()),
            Some(new_type) => self.add(key, new_type, found),
        }
    }

    /// Records `data_type` under `key` with its lifetimes; `found` is where
    /// `key`'s type is recorded already.
    fn add(&mut self, key: String, data_type: &DataType, found: Option<usize>) -> (result: Result<(), DataError>)
        requires
            old(self).wf(),
            found matches Some(i) ==> i < old(self).data_types@.len() && old(self).type_entries()[i as int].0
                == key@,
            found is None ==> forall|i: int|
                0 <= i < old(self).data_types@.len() ==> (#[trigger] old(self).type_entries()[i]).0
                    != key@,
        ensures
            final(self).wf(),
            lifetime_scan(data_type.shape).1 ==> result == Err::<(), DataError>(DataError::MissingLifetime)
                && final(self)@ == old(self)@,
            !lifetime_scan(data_type.shape).1 ==> result is Ok && {
                let lifetimes = insert_names(Seq::empty(), lifetime_scan(data_type.shape).0);
                final(self)@ == DataView {
                    types: old(self)@.types.insert(key@, data_type.text@),
                    all_lifetimes: insert_names(old(self)@.all_lifetimes, lifetimes),
                    lifetimes: if lifetimes.len() > 0 {
                        old(self)@.lifetimes.insert(key@, lifetimes)
                    } else {
                        old(self)@.lifetimes
                    },
                }
            },
    {
        let lifetimes = match Lifetimes::from_type(&data_type.shape) {
            Ok(lifetimes) => lifetimes,
            Err(MissingLifetime) => return Err(DataError::MissingLifetime),
        };
        let ghost text = data_type.text@;
        let ghost entries = self.type_entries();
        match found {
            Some(i) => {
                self.data_types.set(i, (key.clone(), data_type.text.clone()));
                proof {
                    lemma_keyed_update(entries, i as int, text);
                    assert(self.type_entries() =~= entries.update(i as int, (entries[i as int].0, text)));
                }
            },
            None => {
                self.data_types.push((key.clone(), data_type.text.clone()));
                proof {
                    lemma_keyed_push(entries, key@, text);
                    assert(self.type_entries() =~= entries.push((key@, text)));
                }
            },
        }
        if !lifetimes.is_empty() {
            self.all_lifetimes.extend(&lifetimes);
            let ghost lifetime_entries = self.lifetime_entries();
            let ghost names = lifetimes@;
            match self.lifetimes_index(&key) {
                Some(i) => {
                    self.lifetimes.set(i, (key, lifetimes));
                    proof {
                        lemma_keyed_update(lifetime_entries, i as int, names);
                        assert(self.lifetime_entries() =~= lifetime_entries.update(
                            i as int,
                            (lifetime_entries[i as int].0, names),
                        ));
                    }
                },
                None => {
                    self.lifetimes.push((key, lifetimes));
                    proof {
                        lemma_keyed_push(lifetime_entries, key@, names);
                        assert(self.lifetime_entries() =~= lifetime_entries.push((key@, names)));
                    }
                },
            }
        } else {
            proof {
                assert(insert_names(old(self)@.all_lifetimes, lifetimes@) == old(self)@.all_lifetimes);
            }
        }
        Ok(())
    }
}

/// With distinct keys, the map has one key per entry.
proof fn lemma_keyed_len<V>(entries: Seq<(Seq<char>, V)>)
    requires
        distinct_keys(entries),
    ensures
        keyed_map(entries).len() == entries.len(),
        keyed_map(entries).dom().finite(),
    decreases entries.len(),
{
    if entries.len() > 0 {
        let rest = entries.drop_last();
        assert(distinct_keys(rest));
        lemma_keyed_len(rest);
        lemma_keyed_lookup(rest, entries.last().0);
        assert forall|i: int| 0 <= i < rest.len() implies (#[trigger] rest[i]).0 != entries.last().0 by {
            assert(rest[i] == entries[i]);
        }
    }
}

} // verus!
