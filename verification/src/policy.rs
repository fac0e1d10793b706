//! The policy resolution chain: for each of skip, icon and color the engine
//! computes a default, then an optional override callable may keep or
//! replace it; a failed call falls back to the default.
use vstd::prelude::*;
use vstd::string::StringExecFns;
use crate::attributes::Attributes;
use crate::color::Color;
use crate::git::Status;

verus! {

/// What consulting an optional override callable yielded: no callable is
/// configured, the call failed, the callable declined to answer, or it
/// answered with a value.
#[derive(Debug, Clone)]
pub enum Outcome<T> {
    /// No override callable is configured for the axis.
    Absent,
    /// The callable was called and the call failed.
    Failed,
    /// The callable answered with no value.
    Empty,
    /// The callable answered with a value.
    Value(T),
}

/// The override callables a scripting host may supply: one per axis of the
/// policy chain, and one per status kind for status markers. Each receives
/// the engine default and reports what it wants done with it; the engine
/// promises nothing about these calls and resolves whatever comes back.
pub trait Overrides {
    /// May force an entry in or out, whatever the skip default says.
    fn skip(&self, name: &str, attributes: &Option<Attributes>, default: bool) -> Outcome<bool>;

    /// May replace the icon, or clear it to blank padding.
    fn icon(&self, name: &str, attributes: &Option<Attributes>, default_icon: &str) -> Outcome<
        String,
    >;

    /// May replace the entry color.
    fn color(&self, name: &str, attributes: &Option<Attributes>, default_color: Option<Color>) -> Outcome<
        Color,
    >;

    /// May replace the color of a tracked status marker.
    fn tracked_status_color(&self, status: Status, default_color: Option<Color>) -> Outcome<Color>;

    /// May replace the color of an untracked status marker.
    fn untracked_status_color(&self, status: Status, default_color: Option<Color>) -> Outcome<
        Color,
    >;
}

/// No overrides configured: every consultation reports absence.
pub struct NoOverrides;

impl Overrides for NoOverrides {
    fn skip(&self, name: &str, attributes: &Option<Attributes>, default: bool) -> Outcome<bool> {
        Outcome::Absent
    }

    fn icon(&self, name: &str, attributes: &Option<Attributes>, default_icon: &str) -> Outcome<
        String,
    > {
        Outcome::Absent
    }

    fn color(&self, name: &str, attributes: &Option<Attributes>, default_color: Option<Color>) -> Outcome<
        Color,
    > {
        Outcome::Absent
    }

    fn tracked_status_color(&self, status: Status, default_color: Option<Color>) -> Outcome<
        Color,
    > {
        Outcome::Absent
    }

    fn untracked_status_color(&self, status: Status, default_color: Option<Color>) -> Outcome<
        Color,
    > {
        Outcome::Absent
    }
}

/// Resolving the skip axis: an answered value is decisive; anything else
/// keeps the default.
pub open spec fn spec_resolve_skip(default: bool, o: Outcome<bool>) -> bool {
    match o {
        Outcome::Value(b) => b,
        _ => default,
    }
}

/// Resolves the skip axis.
pub fn resolve_skip(default: bool, o: &Outcome<bool>) -> (r: bool)
    ensures
        r == spec_resolve_skip(default, *o),
{
    match o {
        Outcome::Value(b) => *b,
        _ => default,
    }
}

/// Resolving the icon axis: an answered icon replaces the default, an empty
/// answer clears the icon to one blank padding character, and absence or
/// failure keeps the default.
pub open spec fn spec_resolve_icon(default: Seq<char>, o: Outcome<Seq<char>>) -> Seq<char> {
    match o {
        Outcome::Value(s) => s,
        Outcome::Empty => " "@,
        _ => default,
    }
}

/// Resolves the icon axis.
pub fn resolve_icon(default: &str, o: &Outcome<String>) -> (r: String)
    ensures
        r@ == spec_resolve_icon(default@, spec_icon_outcome(*o)),
{
    match o {
        Outcome::Value(s) => s.clone(),
        Outcome::Empty => String::from_str(" "),
        _ => String::from_str(default),
    }
}

/// The view of an icon outcome, with the answered icon as characters.
pub open spec fn spec_icon_outcome(o: Outcome<String>) -> Outcome<Seq<char>> {
    match o {
        Outcome::Absent => Outcome::Absent,
        Outcome::Failed => Outcome::Failed,
        Outcome::Empty => Outcome::Empty,
        Outcome::Value(s) => Outcome::Value(s@),
    }
}

/// Resolving a color axis: an answered color replaces the default; an empty
/// answer, absence or failure keeps the default.
pub open spec fn spec_resolve_color(default: Option<Color>, o: Outcome<Color>) -> Option<Color> {
    match o {
        Outcome::Value(c) => Some(c),
        _ => default,
    }
}

/// Resolves a color axis.
pub fn resolve_color(default: Option<Color>, o: &Outcome<Color>) -> (r: Option<Color>)
    ensures
        r == spec_resolve_color(default, *o),
{
    match o {
        Outcome::Value(c) => Some(*c),
        _ => default,
    }
}

/// Policy fallback: a failed override call resolves exactly as an absent
/// one, on every axis.
pub proof fn lemma_failed_override_is_absent(
    skip_default: bool,
    icon_default: Seq<char>,
    color_default: Option<Color>,
)
    ensures
        spec_resolve_skip(skip_default, Outcome::Failed) == spec_resolve_skip(
            skip_default,
            Outcome::Absent,
        ),
        spec_resolve_icon(icon_default, Outcome::Failed) == spec_resolve_icon(
            icon_default,
            Outcome::Absent,
        ),
        spec_resolve_color(color_default, Outcome::Failed) == spec_resolve_color(
            color_default,
            Outcome::Absent,
        ),
{
}

} // verus!
