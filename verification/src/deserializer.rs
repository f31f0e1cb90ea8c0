use vstd::prelude::*;
use vstd::string::StringExecFns;

use crate::constraint::{Constraint, ConstraintLevel};
use crate::field_type::{FieldType, TypeValue};
use crate::map::BamlMap;
use crate::media::BamlMedia;
use crate::value::CompletionState;

verus! {

/// Why a value could not be parsed, with the errors that led to it.
#[derive(Debug, PartialEq)]
pub struct ParsingError {
    pub scope: Vec<String>,
    pub reason: String,
    pub causes: Vec<ParsingError>,
}

/// Abstract parsing error.
pub struct ErrV {
    pub scope: Seq<Seq<char>>,
    pub reason: Seq<char>,
    pub causes: Seq<ErrV>,
}

/// The abstract error of a parsing error.
pub open spec fn err_view(e: ParsingError) -> ErrV
    decreases e,
{
    ErrV {
        scope: Seq::new(e.scope@.len(), |i: int| e.scope@[i]@),
        reason: e.reason@,
        causes: Seq::new(
            e.causes@.len(),
            |i: int|
                if 0 <= i < e.causes@.len() {
                    err_view(e.causes@[i])
                } else {
                    ErrV { scope: Seq::empty(), reason: Seq::empty(), causes: Seq::empty() }
                },
        ),
    }
}

impl View for ParsingError {
    type V = ErrV;

    open spec fn view(&self) -> ErrV {
        err_view(*self)
    }
}

impl ParsingError {
    /// A copy with the same scope, reason and causes.
    pub fn duplicate(&self) -> (r: ParsingError)
        ensures
            r@ == self@,
        decreases self,
    {
        let mut scope: Vec<String> = Vec::new();
        let mut i: usize = 0;
        while i < self.scope.len()
            invariant
                i <= self.scope@.len(),
                scope@.len() == i,
                forall|j: int| 0 <= j < i ==> (#[trigger] scope@[j])@ == self.scope@[j]@,
            decreases self.scope@.len() - i,
        {
            scope.push(self.scope[i].clone());
            i = i + 1;
        }
        let mut causes: Vec<ParsingError> = Vec::new();
        let mut k: usize = 0;
        while k < self.causes.len()
            invariant
                k <= self.causes@.len(),
                causes@.len() == k,
                forall|j: int| 0 <= j < k ==> (#[trigger] causes@[j])@ == self.causes@[j]@,
            decreases self.causes@.len() - k,
        {
            proof {
                assert(decreases_to!(*self => self.causes));
                assert(decreases_to!(self.causes => self.causes@));
                assert(decreases_to!(self.causes@ => self.causes@[k as int]));
            }
            causes.push(self.causes[k].duplicate());
            k = k + 1;
        }
        let r = ParsingError { scope, reason: self.reason.clone(), causes };
        proof {
            assert(r@.scope =~= self@.scope);
            assert(r@.causes =~= self@.causes);
        }
        r
    }
}

/// A remark the deserializer makes about how a value was obtained.
#[derive(Debug, PartialEq)]
pub enum Flag {
    ObjectFromMarkdown(i32),
    DefaultFromNoValue,
    DefaultButHadUnparseableValue(ParsingError),
    Incomplete,
}

/// Abstract flag.
pub enum FlagV {
    ObjectFromMarkdown(i32),
    DefaultFromNoValue,
    DefaultButHadUnparseableValue(ErrV),
    Incomplete,
}

impl View for Flag {
    type V = FlagV;

    open spec fn view(&self) -> FlagV {
        match self {
            Flag::ObjectFromMarkdown(i) => FlagV::ObjectFromMarkdown(*i),
            Flag::DefaultFromNoValue => FlagV::DefaultFromNoValue,
            Flag::DefaultButHadUnparseableValue(e) => FlagV::DefaultButHadUnparseableValue(e@),
            Flag::Incomplete => FlagV::Incomplete,
        }
    }
}

/// The flags attached to one parsed value.
#[derive(Debug, PartialEq)]
pub struct DeserializerConditions {
    pub flags: Vec<Flag>,
}

impl DeserializerConditions {
    /// No flag.
    pub fn new() -> (r: Self)
        ensures
            r.flags@.len() == 0,
    {
        DeserializerConditions { flags: Vec::new() }
    }

    /// These conditions with `flag` added last.
    pub fn with_flag(self, flag: Flag) -> (r: Self)
        ensures
            r.flags@ == self.flags@.push(flag),
    {
        let mut flags = self.flags;
        flags.push(flag);
        DeserializerConditions { flags }
    }
}

/// A parsed value with the flags of each node.
///
/// `Float` holds the IEEE-754 binary64 bit pattern of the number.
#[derive(Debug, PartialEq)]
pub enum BamlValueWithFlags {
    String(String, DeserializerConditions),
    Int(i64, DeserializerConditions),
    Float(u64, DeserializerConditions),
    Bool(bool, DeserializerConditions),
    List(DeserializerConditions, Vec<BamlValueWithFlags>),
    Mapping(DeserializerConditions, BamlMap<BamlValueWithFlags>),
    Enum(String, String, DeserializerConditions),
    Class(String, DeserializerConditions, BamlMap<BamlValueWithFlags>),
    Null(DeserializerConditions),
    Media(BamlMedia, DeserializerConditions),
}

/// The conditions at the root of a parsed value.
pub open spec fn root_conditions(v: BamlValueWithFlags) -> DeserializerConditions {
    match v {
        BamlValueWithFlags::String(_, c) => c,
        BamlValueWithFlags::Int(_, c) => c,
        BamlValueWithFlags::Float(_, c) => c,
        BamlValueWithFlags::Bool(_, c) => c,
        BamlValueWithFlags::List(c, _) => c,
        BamlValueWithFlags::Mapping(c, _) => c,
        BamlValueWithFlags::Enum(_, _, c) => c,
        BamlValueWithFlags::Class(_, c, _) => c,
        BamlValueWithFlags::Null(c) => c,
        BamlValueWithFlags::Media(_, c) => c,
    }
}

/// The same value with `c` as the conditions at its root.
pub open spec fn with_root_conditions(v: BamlValueWithFlags, c: DeserializerConditions) -> BamlValueWithFlags {
    match v {
        BamlValueWithFlags::String(x, _) => BamlValueWithFlags::String(x, c),
        BamlValueWithFlags::Int(x, _) => BamlValueWithFlags::Int(x, c),
        BamlValueWithFlags::Float(x, _) => BamlValueWithFlags::Float(x, c),
        BamlValueWithFlags::Bool(x, _) => BamlValueWithFlags::Bool(x, c),
        BamlValueWithFlags::List(_, x) => BamlValueWithFlags::List(c, x),
        BamlValueWithFlags::Mapping(_, x) => BamlValueWithFlags::Mapping(c, x),
        BamlValueWithFlags::Enum(n, x, _) => BamlValueWithFlags::Enum(n, x, c),
        BamlValueWithFlags::Class(n, _, x) => BamlValueWithFlags::Class(n, c, x),
        BamlValueWithFlags::Null(_) => BamlValueWithFlags::Null(c),
        BamlValueWithFlags::Media(x, _) => BamlValueWithFlags::Media(x, c),
    }
}

impl BamlValueWithFlags {
    /// Add `flag` last to the conditions at the root.
    pub fn add_flag(&mut self, flag: Flag)
        ensures
            root_conditions(*final(self)).flags@ == root_conditions(*old(self)).flags@.push(flag),
            *final(self) == with_root_conditions(*old(self), root_conditions(*final(self))),
    {
        match self {
            BamlValueWithFlags::String(_, c) => c.flags.push(flag),
            BamlValueWithFlags::Int(_, c) => c.flags.push(flag),
            BamlValueWithFlags::Float(_, c) => c.flags.push(flag),
            BamlValueWithFlags::Bool(_, c) => c.flags.push(flag),
            BamlValueWithFlags::List(c, _) => c.flags.push(flag),
            BamlValueWithFlags::Mapping(c, _) => c.flags.push(flag),
            BamlValueWithFlags::Enum(_, _, c) => c.flags.push(flag),
            BamlValueWithFlags::Class(_, c, _) => c.flags.push(flag),
            BamlValueWithFlags::Null(c) => c.flags.push(flag),
            BamlValueWithFlags::Media(_, c) => c.flags.push(flag),
        }
    }
}

/// Whether a type is the plain string type, whatever its annotations.
pub open spec fn is_string_type(t: FieldType) -> bool {
    t matches FieldType::Primitive(TypeValue::String, _)
}

/// The flag for a value read out of a markdown block: `1` when the target is
/// a string, else `0`.
pub fn markdown_flag(target: &FieldType) -> (r: Flag)
    ensures
        r == Flag::ObjectFromMarkdown(if is_string_type(*target) { 1 } else { 0 }),
{
    match target {
        FieldType::Primitive(TypeValue::String, _) => Flag::ObjectFromMarkdown(1),
        _ => Flag::ObjectFromMarkdown(0),
    }
}

/// Finish coercing a value read out of a markdown block, given the result of
/// coercing its content: an error stays as it is; a value gets the markdown
/// flag (see `markdown_flag`) added at its root.
pub fn coerce_from_markdown(target: &FieldType, inner: Result<BamlValueWithFlags, ParsingError>) -> (r: Result<BamlValueWithFlags, ParsingError>)
    ensures
        match inner {
            Err(e) => r == Err::<BamlValueWithFlags, ParsingError>(e),
            Ok(v) => r matches Ok(w) && w == with_root_conditions(v, root_conditions(w))
                && root_conditions(w).flags@ == root_conditions(v).flags@.push(
                    Flag::ObjectFromMarkdown(if is_string_type(*target) { 1 } else { 0 }),
                ),
        },
{
    match inner {
        Err(e) => Err(e),
        Ok(v) => {
            let mut v = v;
            v.add_flag(markdown_flag(target));
            Ok(v)
        },
    }
}

/// What coercing an "any of" value (several candidate readings of the text,
/// and the raw text) does next: a string target coerces the raw text; any
/// other target picks among the candidates.
#[derive(Debug, PartialEq)]
pub enum AnyOfStep {
    CoerceText(String),
    PickCandidate,
}

/// The next step of coercing an "any of" value to `target`, given its raw
/// text (see `AnyOfStep`).
pub fn any_of_step(target: &FieldType, raw: &String) -> (r: AnyOfStep)
    ensures
        is_string_type(*target) ==> (r matches AnyOfStep::CoerceText(t) && t@ == raw@),
        !is_string_type(*target) ==> r is PickCandidate,
{
    match target {
        FieldType::Primitive(TypeValue::String, _) => AnyOfStep::CoerceText(raw.clone()),
        _ => AnyOfStep::PickCandidate,
    }
}

/// The shortcut of parsing for a string target: the raw text itself, with no
/// flag; `None` for any other target, which takes the full parse.
pub fn parse_string_target(target: &FieldType, raw: &str) -> (r: Option<BamlValueWithFlags>)
    ensures
        is_string_type(*target) ==> (r matches Some(BamlValueWithFlags::String(s, c)) && s@ == raw@ && c.flags@.len() == 0),
        !is_string_type(*target) ==> r is None,
{
    match target {
        FieldType::Primitive(TypeValue::String, _) => Some(BamlValueWithFlags::String(raw.to_owned(), DeserializerConditions::new())),
        _ => None,
    }
}

/// Whether any flag reports an incomplete value.
pub open spec fn has_incomplete(flags: Seq<Flag>) -> bool {
    exists|i: int| 0 <= i < flags.len() && flags[i] is Incomplete
}

/// `Incomplete` when a flag says the value is incomplete, else `Complete`.
pub fn completion_state(flags: &Vec<Flag>) -> (r: CompletionState)
    ensures
        r == (if has_incomplete(flags@) {
            CompletionState::Incomplete
        } else {
            CompletionState::Complete
        }),
{
    let mut i: usize = 0;
    while i < flags.len()
        invariant
            i <= flags@.len(),
            forall|j: int| 0 <= j < i ==> !(flags@[j] is Incomplete),
        decreases flags@.len() - i,
    {
        if let Flag::Incomplete = &flags[i] {
            return CompletionState::Incomplete;
        }
        i = i + 1;
    }
    CompletionState::Complete
}

/// The message for a failed assertion: `Failed: `, the label and a space
/// when there is one, then the expression.
pub open spec fn assert_failure_reason(c: Constraint) -> Seq<char> {
    "Failed: "@ + match c.label {
        Some(l) => l@ + " "@,
        None => Seq::empty(),
    } + c.expression.0@
}

/// Some assertion among the constraint results failed.
pub open spec fn some_assert_failed(constraints: Seq<(Constraint, bool)>) -> bool {
    exists|i: int| 0 <= i < constraints.len() && !constraints[i].1 && constraints[i].0.level == ConstraintLevel::Assert
}

fn assert_failure(c: &Constraint) -> (r: ParsingError)
    ensures
        r.reason@ == assert_failure_reason(*c),
        r.causes@.len() == 0,
        r.scope@.len() == 0,
{
    let mut reason = "Failed: ".to_owned();
    match &c.label {
        Some(l) => {
            reason.append(l.as_str());
            reason.append(" ");
        },
        None => {},
    }
    reason.append(c.expression.0.as_str());
    proof {
        reveal_strlit("");
    }
    ParsingError { causes: Vec::new(), reason, scope: Vec::new() }
}

/// Fail when an assertion among the evaluated constraints failed; checks that
/// failed are not errors here.
pub fn validate_asserts(constraints: &Vec<(Constraint, bool)>) -> (r: Result<(), ParsingError>)
    ensures
        r is Err <==> some_assert_failed(constraints@),
        r matches Err(e) ==> e.reason@ == "Assertions failed."@ && e.causes@.len() == 0 && e.scope@.len() == 0,
{
    let mut causes: Vec<ParsingError> = Vec::new();
    let mut i: usize = 0;
    while i < constraints.len()
        invariant
            i <= constraints@.len(),
            causes@.len() == 0 <==> !some_assert_failed(constraints@.take(i as int)),
            forall|j: int| 0 <= j < causes@.len() ==> (#[trigger] causes@[j]).causes@.len() == 0,
        decreases constraints@.len() - i,
    {
        let (c, result) = &constraints[i];
        if !*result && c.level == ConstraintLevel::Assert {
            causes.push(assert_failure(c));
            assert(constraints@.take(i + 1)[i as int] == constraints@[i as int]);
        }
        proof {
            let t = constraints@.take(i + 1);
            if some_assert_failed(constraints@.take(i as int)) {
                let j = choose|j: int| 0 <= j < i && !constraints@.take(i as int)[j].1 && constraints@.take(i as int)[j].0.level == ConstraintLevel::Assert;
                assert(t[j] == constraints@.take(i as int)[j]);
            }
            if some_assert_failed(t) {
                let j = choose|j: int| 0 <= j < t.len() && !t[j].1 && t[j].0.level == ConstraintLevel::Assert;
                if j < i {
                    assert(constraints@.take(i as int)[j] == t[j]);
                }
            }
        }
        i = i + 1;
    }
    assert(constraints@.take(i as int) =~= constraints@);
    if causes.len() > 0 {
        Err(ParsingError { causes: Vec::new(), reason: "Assertions failed.".to_owned(), scope: Vec::new() })
    } else {
        Ok(())
    }
}

/// The shape of a default value: an empty list, a list of defaults, null or
/// an empty map.
pub enum DefaultV {
    List(Seq<DefaultV>),
    Null,
    EmptyMap,
}

/// The default a type takes when no value was given for it: a list is empty,
/// null and optional types are null, a map is empty, a union takes the
/// default of its first member that has one, a tuple the list of its
/// members' defaults when each has one; other types have none.
pub open spec fn default_shape(t: FieldType) -> Option<DefaultV>
    decreases t, 1nat,
{
    match t {
        FieldType::Enum(_, _) => None,
        FieldType::Literal(_, _) => None,
        FieldType::Class(_, _) => None,
        FieldType::List(_, _) => Some(DefaultV::List(Seq::empty())),
        FieldType::Union(items, _) => first_default(items@),
        FieldType::Primitive(TypeValue::Null, _) => Some(DefaultV::Null),
        FieldType::Optional(_, _) => Some(DefaultV::Null),
        FieldType::Mapping(_, _, _) => Some(DefaultV::EmptyMap),
        FieldType::Tuple(v, _) => match all_defaults(v@) {
            Some(ds) => Some(DefaultV::List(ds)),
            None => None,
        },
        FieldType::Primitive(_, _) => None,
    }
}

/// The default of the first type in `s` that has one.
pub open spec fn first_default(s: Seq<FieldType>) -> Option<DefaultV>
    decreases s, 0nat,
{
    if s.len() == 0 {
        None
    } else {
        match default_shape(s[0]) {
            Some(d) => Some(d),
            None => first_default(s.subrange(1, s.len() as int)),
        }
    }
}

/// The defaults of all types in `s`, when each has one.
pub open spec fn all_defaults(s: Seq<FieldType>) -> Option<Seq<DefaultV>>
    decreases s, 0nat,
{
    if s.len() == 0 {
        Some(Seq::empty())
    } else {
        match (all_defaults(s.subrange(0, s.len() - 1)), default_shape(s[s.len() - 1])) {
            (Some(ds), Some(d)) => Some(ds.push(d)),
            _ => None,
        }
    }
}

/// The flag a default carries: that no value was given, or that the given one
/// could not be parsed, with the error.
pub open spec fn default_flag(error: Option<&ParsingError>) -> FlagV {
    match error {
        None => FlagV::DefaultFromNoValue,
        Some(e) => FlagV::DefaultButHadUnparseableValue(e@),
    }
}

/// The conditions hold exactly the one flag `f`.
pub open spec fn only_flag(c: DeserializerConditions, f: FlagV) -> bool {
    c.flags@.len() == 1 && c.flags@[0]@ == f
}

/// `x` has the shape `d`, with exactly the flag `f` on every node.
pub open spec fn default_rel(x: BamlValueWithFlags, d: DefaultV, f: FlagV) -> bool
    decreases x,
{
    match (x, d) {
        (BamlValueWithFlags::List(c, items), DefaultV::List(ds)) => only_flag(c, f) && items@.len() == ds.len()
            && forall|i: int| 0 <= i < ds.len() ==> #[trigger] default_rel(items@[i], ds[i], f),
        (BamlValueWithFlags::Null(c), DefaultV::Null) => only_flag(c, f),
        (BamlValueWithFlags::Mapping(c, m), DefaultV::EmptyMap) => only_flag(c, f) && m.entries@.len() == 0,
        _ => false,
    }
}

fn default_conditions(error: Option<&ParsingError>) -> (r: DeserializerConditions)
    ensures
        only_flag(r, default_flag(error)),
{
    let flag = match error {
        None => Flag::DefaultFromNoValue,
        Some(e) => Flag::DefaultButHadUnparseableValue(e.duplicate()),
    };
    let r = DeserializerConditions::new().with_flag(flag);
    r
}

proof fn lemma_first_default_skip(s: Seq<FieldType>, i: int)
    requires
        0 <= i < s.len(),
        default_shape(s[i]) is None,
    ensures
        first_default(s.subrange(i, s.len() as int)) == first_default(s.subrange(i + 1, s.len() as int)),
{
    let t = s.subrange(i, s.len() as int);
    assert(t[0] == s[i]);
    assert(t.subrange(1, t.len() as int) =~= s.subrange(i + 1, s.len() as int));
}

impl FieldType {
    /// The default value of this type, flagged with why it was used: no value
    /// was given (`error` is `None`) or the given one failed with `error`.
    pub fn default_value(&self, error: Option<&ParsingError>) -> (r: Option<BamlValueWithFlags>)
        ensures
            match default_shape(*self) {
                None => r is None,
                Some(d) => r matches Some(x) && default_rel(x, d, default_flag(error)),
            },
        decreases self,
    {
        match self {
            FieldType::Enum(_, _) => None,
            FieldType::Literal(_, _) => None,
            FieldType::Class(_, _) => None,
            FieldType::List(_, _) => Some(BamlValueWithFlags::List(default_conditions(error), Vec::new())),
            FieldType::Union(items, _) => {
                let mut i: usize = 0;
                assert(items@.subrange(0, items@.len() as int) =~= items@);
                while i < items.len()
                    invariant
                        i <= items@.len(),
                        *self == FieldType::Union(*items, meta_of_union(*self)),
                        first_default(items@) == first_default(items@.subrange(i as int, items@.len() as int)),
                    decreases items@.len() - i,
                {
                    proof {
                        assert(decreases_to!(*self => self->Union_0));
                        assert(decreases_to!(*items => items@));
                        assert(decreases_to!(items@ => items@[i as int]));
                    }
                    let d = items[i].default_value(error);
                    match d {
                        Some(v) => {
                            proof {
                                let t = items@.subrange(i as int, items@.len() as int);
                                assert(t[0] == items@[i as int]);
                            }
                            return Some(v);
                        },
                        None => {
                            proof {
                                lemma_first_default_skip(items@, i as int);
                            }
                        },
                    }
                    i = i + 1;
                }
                None
            },
            FieldType::Primitive(TypeValue::Null, _) => Some(BamlValueWithFlags::Null(default_conditions(error))),
            FieldType::Optional(_, _) => Some(BamlValueWithFlags::Null(default_conditions(error))),
            FieldType::Mapping(_, _, _) => Some(BamlValueWithFlags::Mapping(default_conditions(error), BamlMap::new())),
            FieldType::Tuple(v, _) => {
                let mut defaults: Vec<Option<BamlValueWithFlags>> = Vec::new();
                let mut i: usize = 0;
                while i < v.len()
                    invariant
                        i <= v@.len(),
                        *self == FieldType::Tuple(*v, meta_of_tuple(*self)),
                        defaults@.len() == i,
                        forall|j: int| 0 <= j < i ==> match default_shape(v@[j]) {
                            None => (#[trigger] defaults@[j]) is None,
                            Some(d) => defaults@[j] matches Some(x) && default_rel(x, d, default_flag(error)),
                        },
                    decreases v@.len() - i,
                {
                    proof {
                        assert(decreases_to!(*self => self->Tuple_0));
                        assert(decreases_to!(*v => v@));
                        assert(decreases_to!(v@ => v@[i as int]));
                    }
                    let d = v[i].default_value(error);
                    defaults.push(d);
                    i = i + 1;
                }
                let mut all_some = true;
                let mut k: usize = 0;
                while k < defaults.len()
                    invariant
                        k <= defaults@.len(),
                        all_some == forall|j: int| 0 <= j < k ==> (#[trigger] defaults@[j]) is Some,
                    decreases defaults@.len() - k,
                {
                    if defaults[k].is_none() {
                        all_some = false;
                    }
                    k = k + 1;
                }
                proof {
                    lemma_all_defaults(v@);
                }
                if all_some {
                    proof {
                        assert(k == defaults@.len());
                        assert forall|j: int| 0 <= j < v@.len() implies (#[trigger] default_shape(v@[j])) is Some by {
                            assert(defaults@[j] is Some);
                        }
                    }
                    let mut values: Vec<BamlValueWithFlags> = Vec::new();
                    let ghost ds = all_defaults(v@)->Some_0;
                    proof {
                        assert forall|j: int| 0 <= j < v@.len() implies default_rel(defaults@[j]->Some_0, ds[j], default_flag(error)) by {
                            assert(default_shape(v@[j]) == Some(ds[j]));
                            assert(defaults@[j] is Some);
                        }
                    }
                    let total = defaults.len();
                    let mut rest = defaults;
                    let ghost orig = rest@;
                    let mut n: usize = 0;
                    while rest.len() > 0
                        invariant
                            n + rest@.len() == orig.len(),
                            total == orig.len(),
                            rest@ == orig.skip(n as int),
                            orig.len() == v@.len(),
                            ds.len() == v@.len(),
                            values@.len() == n,
                            forall|j: int| 0 <= j < orig.len() ==> (#[trigger] orig[j]) is Some,
                            forall|j: int| 0 <= j < orig.len() ==> default_rel(orig[j]->Some_0, ds[j], default_flag(error)),
                            forall|j: int| 0 <= j < n ==> (#[trigger] values@[j]) == orig[j]->Some_0,
                        decreases rest@.len(),
                    {
                        let x = rest.remove(0);
                        assert(orig.skip(n as int)[0] == orig[n as int]);
                        assert(rest@ =~= orig.skip(n + 1));
                        values.push(x.unwrap());
                        n = n + 1;
                    }
                    let r = BamlValueWithFlags::List(default_conditions(error), values);
                    proof {
                        assert forall|j: int| 0 <= j < ds.len() implies #[trigger] default_rel(values@[j], ds[j], default_flag(error)) by {
                            assert(values@[j] == orig[j]->Some_0);
                        }
                    }
                    Some(r)
                } else {
                    None
                }
            },
            FieldType::Primitive(_, _) => None,
        }
    }
}

/// The metadata of a union type.
pub open spec fn meta_of_union(t: FieldType) -> crate::field_type::TypeMetadata {
    t->Union_1
}

/// The metadata of a tuple type.
pub open spec fn meta_of_tuple(t: FieldType) -> crate::field_type::TypeMetadata {
    t->Tuple_1
}

proof fn lemma_all_defaults(s: Seq<FieldType>)
    ensures
        all_defaults(s) is Some <==> forall|j: int| 0 <= j < s.len() ==> (#[trigger] default_shape(s[j])) is Some,
        all_defaults(s) is Some ==> all_defaults(s)->Some_0.len() == s.len() && forall|j: int| 0 <= j < s.len() ==> default_shape(s[j]) == Some(#[trigger] all_defaults(s)->Some_0[j]),
    decreases s.len(),
{
    if s.len() > 0 {
        let p = s.subrange(0, s.len() - 1);
        lemma_all_defaults(p);
        assert forall|j: int| 0 <= j < p.len() implies p[j] == s[j] by {}
        if all_defaults(s) is None {
            if forall|j: int| 0 <= j < s.len() ==> (#[trigger] default_shape(s[j])) is Some {
                assert(default_shape(s[s.len() - 1]) is Some);
                assert forall|j: int| 0 <= j < p.len() implies (#[trigger] default_shape(p[j])) is Some by {
                    assert(default_shape(s[j]) is Some);
                }
            }
        }
    }
}

} // verus!
