//! Parameters and failures of the alignment of a burst.

use vstd::prelude::*;
use crate::numeric::{decimal, decimal_text, Ratio};

verus! {

/// The parameters of the algorithm. The three real parameters are held as
/// exact fractions.
#[derive(Clone, Copy, Debug, PartialEq, Eq, Structural)]
pub struct Config {
    /// The radius of the Gaussian blur that precedes the search for the
    /// highlight.
    pub sigma: Ratio,
    /// The part of full brightness that a pixel must exceed to count.
    pub threshold: Ratio,
    /// The part of the sphere's radius within which pixels count.
    pub mask_ray: Ratio,
    /// How much is logged. It changes no result.
    pub verbosity: u32,
}

impl Config {
    /// The blur radius is above zero, the threshold lies between zero and
    /// one, and the mask ratio is above zero and at most one.
    pub open spec fn valid(self) -> bool {
        &&& self.sigma.positive()
        &&& self.threshold.at_most_one()
        &&& self.mask_ray.positive()
        &&& self.mask_ray.at_most_one()
    }

    /// Tells whether the parameters are in their ranges.
    pub fn is_valid(&self) -> (ok: bool)
        ensures
            ok == self.valid(),
    {
        self.sigma.den > 0 && self.sigma.num > 0 && self.threshold.den > 0 && self.threshold.num
            <= self.threshold.den && self.mask_ray.den > 0 && self.mask_ray.num > 0
            && self.mask_ray.num <= self.mask_ray.den
    }
}

/// A kind of pixel that images to align may have: an unsigned level of gray,
/// with a wider kind of number in which a few levels can be added up.
pub trait CanRegister: Copy + Sized {
    /// The wider kind of number.
    type Bigger: Copy;

    /// The level as an integer.
    spec fn level(self) -> int;

    /// The highest level.
    spec fn top() -> int;

    /// The wider number as an integer.
    spec fn wide_level(wide: Self::Bigger) -> int;

    /// Every level lies between zero and the highest.
    proof fn lemma_level_in_range(self)
        ensures
            0 <= self.level() <= Self::top(),
    ;

    /// A level is given by its integer.
    proof fn lemma_level_decides(self, other: Self)
        requires
            self.level() == other.level(),
        ensures
            self == other,
    ;

    /// Widens a level.
    fn widen(self) -> (wide: Self::Bigger)
        ensures
            Self::wide_level(wide) == self.level(),
    ;

    /// Adds two wide numbers that together do not exceed four times the
    /// highest level.
    fn add_wide(a: Self::Bigger, b: Self::Bigger) -> (sum: Self::Bigger)
        requires
            0 <= Self::wide_level(a),
            0 <= Self::wide_level(b),
            Self::wide_level(a) + Self::wide_level(b) <= 4 * Self::top(),
        ensures
            Self::wide_level(sum) == Self::wide_level(a) + Self::wide_level(b),
    ;

    /// A quarter of a wide number that does not exceed four times the
    /// highest level, rounded down.
    fn quarter(wide: Self::Bigger) -> (q: Self)
        requires
            0 <= Self::wide_level(wide) <= 4 * Self::top(),
        ensures
            q.level() == Self::wide_level(wide) / 4,
    ;
}

impl CanRegister for u8 {
    type Bigger = u16;

    open spec fn level(self) -> int {
        self as int
    }

    open spec fn top() -> int {
        0xff
    }

    open spec fn wide_level(wide: u16) -> int {
        wide as int
    }

    proof fn lemma_level_in_range(self) {
    }

    proof fn lemma_level_decides(self, other: u8) {
    }

    fn widen(self) -> (wide: u16) {
        self as u16
    }

    fn add_wide(a: u16, b: u16) -> (sum: u16) {
        a + b
    }

    fn quarter(wide: u16) -> (q: u8) {
        (wide / 4) as u8
    }
}

impl CanRegister for u16 {
    type Bigger = u32;

    open spec fn level(self) -> int {
        self as int
    }

    open spec fn top() -> int {
        0xffff
    }

    open spec fn wide_level(wide: u32) -> int {
        wide as int
    }

    proof fn lemma_level_in_range(self) {
    }

    proof fn lemma_level_decides(self, other: u16) {
    }

    fn widen(self) -> (wide: u32) {
        self as u32
    }

    fn add_wide(a: u32, b: u32) -> (sum: u32) {
        a + b
    }

    fn quarter(wide: u32) -> (q: u16) {
        (wide / 4) as u16
    }
}

/// Why an alignment gave no motion.
#[derive(Clone, Copy, Debug, PartialEq, Eq, Structural)]
pub enum RegistrationError {
    /// The caller asked the algorithm to stop.
    StoppedByCaller,
    /// The motion of the reference image has no inverse.
    InverseRefMotion,
    /// Too few pixels were valid; the count is given.
    NotEnoughPoints(u32),
    /// The Hessian matrix is not positive definite, so it has no Cholesky
    /// decomposition.
    NonDefinitePositiveHessian,
}

impl RegistrationError {
    /// The text that describes the failure, with the count of pixels where
    /// the failure carries one.
    pub open spec fn text(self) -> Seq<char> {
        match self {
            RegistrationError::StoppedByCaller => "The algorithm was stopped by the caller"@,
            RegistrationError::InverseRefMotion =>
                "Error while trying to inverse the motion of the reference image"@,
            RegistrationError::NotEnoughPoints(count) =>
                "Not enough pixels to perform a direct image alignment estimation: "@
                    + decimal_text(count as nat),
            RegistrationError::NonDefinitePositiveHessian =>
                "The Hessian matrix computed for the direct alignment is not definite positive so its Choleski decomposition failed"@,
        }
    }

    /// Describes the failure.
    pub fn message(&self) -> (m: String)
        ensures
            m@ == self.text(),
    {
        match self {
            RegistrationError::StoppedByCaller => "The algorithm was stopped by the caller".to_owned(),
            RegistrationError::InverseRefMotion =>
                "Error while trying to inverse the motion of the reference image".to_owned(),
            RegistrationError::NotEnoughPoints(count) => {
                let mut m =
                    "Not enough pixels to perform a direct image alignment estimation: ".to_owned();
                m.append(decimal(*count).as_str());
                m
            },
            RegistrationError::NonDefinitePositiveHessian =>
                "The Hessian matrix computed for the direct alignment is not definite positive so its Choleski decomposition failed".to_owned(),
        }
    }
}

} // verus!
