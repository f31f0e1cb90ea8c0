use vstd::prelude::*;

verus! {

/// Whether a failing constraint stops parsing (`Assert`) or is only
/// reported (`Check`).
#[derive(Clone, Copy, Debug, PartialEq, Eq, Structural)]
pub enum ConstraintLevel {
    Check,
    Assert,
}

/// The text of a Jinja expression.
#[derive(Clone, Debug, PartialEq)]
pub struct JinjaExpression(pub String);

/// A user constraint attached to a type.
#[derive(Clone, Debug, PartialEq)]
pub struct Constraint {
    pub level: ConstraintLevel,
    pub expression: JinjaExpression,
    pub label: Option<String>,
}

/// The outcome of one `@check` on a value.
#[derive(Clone, Debug, PartialEq)]
pub struct ResponseCheck {
    pub name: String,
    pub expression: String,
    pub status: String,
}

impl ResponseCheck {
    /// A copy with the same texts.
    pub fn duplicate(&self) -> (r: ResponseCheck)
        ensures
            r.name@ == self.name@,
            r.expression@ == self.expression@,
            r.status@ == self.status@,
    {
        ResponseCheck {
            name: self.name.clone(),
            expression: self.expression.clone(),
            status: self.status.clone(),
        }
    }
}

impl Constraint {
    /// A copy with the same level, expression and label.
    pub fn duplicate(&self) -> (r: Constraint)
        ensures
            r.level == self.level,
            r.expression.0@ == self.expression.0@,
            crate::media::opt_string_view(r.label) == crate::media::opt_string_view(self.label),
    {
        let label = match &self.label {
            Some(l) => Some(l.clone()),
            None => None,
        };
        Constraint { level: self.level, expression: JinjaExpression(self.expression.0.clone()), label }
    }
}

} // verus!
