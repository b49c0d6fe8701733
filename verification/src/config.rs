//! The parameters of one class of snowflakes.

use crate::measure::Length;
use crate::measure::Ratio;
use vstd::prelude::*;

verus! {

/// Length of the root arm of the default class, in thousandths.
pub const BRANCH_LEN_THOUSANDTHS: u64 = 25000;

/// Recursion ceiling of the default class.
pub const MAX_DEPTH: usize = 2;

/// Most children that an arm of the default class can spawn.
pub const MAX_CHILDREN: usize = 6;

/// Widest cross-section of the default class, in thousandths.
pub const MAX_WIDTH_THOUSANDTHS: u64 = 4000;

/// Narrowest cross-section of the default class, in thousandths.
pub const MIN_WIDTH_THOUSANDTHS: u64 = 2000;

/// An arm shorter than this many thousandths is not drawn.
pub const CUTOFF_THOUSANDTHS: u64 = 500;

/// The mathematical content of a [`Config`].
pub struct ConfigView {
    pub initial_branch_len: Length,
    pub max_depth: usize,
    pub max_children: usize,
    pub max_width: Length,
    pub min_width: Length,
}

impl ConfigView {
    /// The lengths are positive and the widths are in order.
    pub open spec fn valid(self) -> bool {
        &&& self.initial_branch_len.thousandths > 0
        &&& self.min_width.thousandths > 0
        &&& self.min_width.thousandths <= self.max_width.thousandths
    }

    /// The root arm is too short to be drawn.
    pub open spec fn root_is_short(self) -> bool {
        self.initial_branch_len.thousandths < CUTOFF_THOUSANDTHS
    }

    /// The taper of an arm at `depth`: the share of the recursion that is
    /// still ahead of it.
    pub open spec fn depth_scale(self, depth: usize) -> Ratio {
        Ratio { numerator: (self.max_depth - depth) as usize, denominator: self.max_depth }
    }
}

/// Why a set of parameters is no configuration.
#[derive(Clone, Copy, Debug, PartialEq, Eq, Structural)]
pub enum ConfigError {
    /// The root arm has no length.
    EmptyBranch,
    /// The narrowest cross-section has no width.
    EmptyWidth,
    /// The narrowest cross-section is wider than the widest.
    WidthsReversed,
}

/// The error that [`Config::new`] reports for these parameters, if any. The
/// root arm is judged first, then the narrowest width, then the order of the
/// two widths.
pub open spec fn rejection(
    initial_branch_len: Length,
    max_width: Length,
    min_width: Length,
) -> Option<ConfigError> {
    if initial_branch_len.thousandths == 0 {
        Some(ConfigError::EmptyBranch)
    } else if min_width.thousandths == 0 {
        Some(ConfigError::EmptyWidth)
    } else if min_width.thousandths > max_width.thousandths {
        Some(ConfigError::WidthsReversed)
    } else {
        None
    }
}

/// An immutable bundle of parameters. Every value of this type is valid:
/// its lengths are positive and `min_width <= max_width`.
#[derive(Clone, Copy, Debug)]
pub struct Config {
    initial_branch_len: Length,
    max_depth: usize,
    max_children: usize,
    max_width: Length,
    min_width: Length,
}

impl View for Config {
    type V = ConfigView;

    closed spec fn view(&self) -> ConfigView {
        ConfigView {
            initial_branch_len: self.initial_branch_len,
            max_depth: self.max_depth,
            max_children: self.max_children,
            max_width: self.max_width,
            min_width: self.min_width,
        }
    }
}

impl Config {
    #[verifier::type_invariant]
    spec fn well_formed(self) -> bool {
        self@.valid()
    }

    /// Validates the parameters and bundles them. Nothing is clamped: a root arm
    /// without length, a narrowest width of zero, or widths out of order are
    /// refused here, before any generation starts.
    pub fn new(
        initial_branch_len: Length,
        max_depth: usize,
        max_children: usize,
        max_width: Length,
        min_width: Length,
    ) -> (made: Result<Config, ConfigError>)
        ensures
            match made {
                Ok(config) => {
                    &&& rejection(initial_branch_len, max_width, min_width) is None
                    &&& config@ == (ConfigView {
                        initial_branch_len,
                        max_depth,
                        max_children,
                        max_width,
                        min_width,
                    })
                    &&& config@.valid()
                },
                Err(error) => rejection(initial_branch_len, max_width, min_width) == Some(error),
            },
    {
        if initial_branch_len.thousandths == 0 {
            Err(ConfigError::EmptyBranch)
        } else if min_width.thousandths == 0 {
            Err(ConfigError::EmptyWidth)
        } else if min_width.thousandths > max_width.thousandths {
            Err(ConfigError::WidthsReversed)
        } else {
            Ok(Config { initial_branch_len, max_depth, max_children, max_width, min_width })
        }
    }

    /// Length of the root arm.
    pub fn initial_branch_len(&self) -> (length: Length)
        ensures
            length == self@.initial_branch_len,
            length.thousandths > 0,
    {
        proof {
            use_type_invariant(self);
        }
        self.initial_branch_len
    }

    /// Recursion ceiling: no arm is drawn at this depth or below it.
    pub fn max_depth(&self) -> (depth: usize)
        ensures
            depth == self@.max_depth,
    {
        self.max_depth
    }

    /// Most children that one arm can spawn.
    pub fn max_children(&self) -> (count: usize)
        ensures
            count == self@.max_children,
    {
        self.max_children
    }

    /// Widest cross-section of an arm, before tapering.
    pub fn max_width(&self) -> (width: Length)
        ensures
            width == self@.max_width,
            self@.min_width.thousandths <= width.thousandths,
    {
        proof {
            use_type_invariant(self);
        }
        self.max_width
    }

    /// Narrowest cross-section of an arm, before tapering.
    pub fn min_width(&self) -> (width: Length)
        ensures
            width == self@.min_width,
            0 < width.thousandths <= self@.max_width.thousandths,
    {
        proof {
            use_type_invariant(self);
        }
        self.min_width
    }

    /// Whether the root arm falls under the cutoff and is left out.
    pub fn root_is_short(&self) -> (short: bool)
        ensures
            short == self@.root_is_short(),
    {
        self.initial_branch_len.thousandths < CUTOFF_THOUSANDTHS
    }

    /// The factor by which an arm at `depth` is narrowed:
    /// `(max_depth - depth) / max_depth`. Arms taper toward the tips, and an
    /// arm at the ceiling would have no width at all.
    pub fn depth_scale(&self, depth: usize) -> (scale: Ratio)
        requires
            depth <= self@.max_depth,
        ensures
            scale == self@.depth_scale(depth),
            scale.numerator == self@.max_depth - depth,
            scale.denominator == self@.max_depth,
    {
        Ratio { numerator: self.max_depth - depth, denominator: self.max_depth }
    }
}

impl Default for Config {
    /// The regular class: a root arm of 25 units, two levels, up to six
    /// children per arm, widths between 2 and 4 units.
    fn default() -> (config: Config)
        ensures
            config@ == (ConfigView {
                initial_branch_len: Length { thousandths: BRANCH_LEN_THOUSANDTHS },
                max_depth: MAX_DEPTH,
                max_children: MAX_CHILDREN,
                max_width: Length { thousandths: MAX_WIDTH_THOUSANDTHS },
                min_width: Length { thousandths: MIN_WIDTH_THOUSANDTHS },
            }),
    {
        Config {
            initial_branch_len: Length { thousandths: BRANCH_LEN_THOUSANDTHS },
            max_depth: MAX_DEPTH,
            max_children: MAX_CHILDREN,
            max_width: Length { thousandths: MAX_WIDTH_THOUSANDTHS },
            min_width: Length { thousandths: MIN_WIDTH_THOUSANDTHS },
        }
    }
}

} // verus!
