//! Versioning strategies: how the generation of a slot advances, and
//! whether it can run out.
use vstd::prelude::*;

verus! {

/// A strategy to version entries in a collection. It solves the ABA
/// problem, or ignores it altogether, depending on the application.
pub trait Version: Sized + Copy {
    /// The generation that `new` produces.
    spec fn initial() -> Self;

    /// The generation after `self`, or `None` when the strategy is exhausted.
    spec fn next(self) -> Option<Self>;

    fn new() -> (r: Self)
        ensures
            r == Self::initial(),
    ;

    fn increment(self) -> (r: Option<Self>)
        ensures
            r == self.next(),
    ;

    /// Whether two versions stand for the same generation.
    fn same(self, other: Self) -> (r: bool)
        ensures
            r == (self == other),
    ;
}

/// A no-op versioning strategy, for when the ABA problem does not matter.
#[derive(PartialEq, Eq, PartialOrd, Ord, Hash, Clone, Copy, Debug)]
pub struct Nil;

impl Version for Nil {
    open spec fn initial() -> Self {
        Nil
    }

    open spec fn next(self) -> Option<Self> {
        Some(Nil)
    }

    fn new() -> (r: Self) {
        Nil
    }

    fn increment(self) -> (r: Option<Self>) {
        Some(Nil)
    }

    fn same(self, other: Self) -> (r: bool) {
        true
    }
}

/// A versioning strategy that starts over from the initial generation
/// when the underlying one is exhausted, so that it never runs out.
#[derive(PartialEq, Eq, PartialOrd, Ord, Hash, Clone, Copy, Debug)]
pub struct Wrapping<T>(pub T);

impl<T: Version> Version for Wrapping<T> {
    open spec fn initial() -> Self {
        Wrapping(T::initial())
    }

    open spec fn next(self) -> Option<Self> {
        match self.0.next() {
            Some(v) => Some(Wrapping(v)),
            None => Some(Wrapping(T::initial())),
        }
    }

    fn new() -> (r: Self) {
        Wrapping(T::new())
    }

    fn increment(self) -> (r: Option<Self>) {
        let result = match self.0.increment() {
            Some(v) => Wrapping(v),
            None => Self::new(),
        };
        Some(result)
    }

    fn same(self, other: Self) -> (r: bool) {
        self.0.same(other.0)
    }
}

/// A checked generation counter over `u32`: it starts at one and is
/// exhausted at `u32::MAX`.
#[derive(PartialEq, Eq, PartialOrd, Ord, Hash, Clone, Copy, Debug)]
pub struct Checked32 {
    value: u32,
}

impl Checked32 {
    #[verifier::type_invariant]
    spec fn positive(self) -> bool {
        self.value >= 1
    }

    pub closed spec fn view(self) -> nat {
        self.value as nat
    }

    /// The initial generation is one.
    pub proof fn lemma_initial()
        ensures
            Self::initial()@ == 1,
    {
    }

    /// A generation below `u32::MAX` advances by one; the last one is
    /// exhausted.
    pub proof fn lemma_next(v: Self)
        ensures
            v.next() is None <==> v@ == u32::MAX,
            v.next() matches Some(w) ==> w@ == v@ + 1,
    {
    }

    /// Two generations are the same exactly when their numbers are.
    pub proof fn lemma_view_injective(v: Self, w: Self)
        ensures
            (v@ == w@) <==> (v == w),
    {
    }

    /// The generation as a number; never zero.
    pub fn get(self) -> (r: u32)
        ensures
            r == self@,
            r >= 1,
    {
        proof {
            use_type_invariant(self);
        }
        self.value
    }
}

impl Version for Checked32 {
    closed spec fn initial() -> Self {
        Checked32 { value: 1 }
    }

    closed spec fn next(self) -> Option<Self> {
        if self.value < u32::MAX {
            Some(Checked32 { value: (self.value + 1) as u32 })
        } else {
            None
        }
    }

    fn new() -> (r: Self) {
        Checked32 { value: 1 }
    }

    fn increment(self) -> (r: Option<Self>) {
        proof {
            use_type_invariant(self);
        }
        match self.value.checked_add(1) {
            Some(value) => Some(Checked32 { value }),
            None => None,
        }
    }

    fn same(self, other: Self) -> (r: bool) {
        self.value == other.value
    }
}

/// A checked generation counter over `u8`: it starts at one and is
/// exhausted at `u8::MAX`.
#[derive(PartialEq, Eq, PartialOrd, Ord, Hash, Clone, Copy, Debug)]
pub struct Checked8 {
    value: u8,
}

impl Checked8 {
    #[verifier::type_invariant]
    spec fn positive(self) -> bool {
        self.value >= 1
    }

    pub closed spec fn view(self) -> nat {
        self.value as nat
    }

    /// The initial generation is one.
    pub proof fn lemma_initial()
        ensures
            Self::initial()@ == 1,
    {
    }

    /// A generation below `u8::MAX` advances by one; the last one is
    /// exhausted.
    pub proof fn lemma_next(v: Self)
        ensures
            v.next() is None <==> v@ == u8::MAX,
            v.next() matches Some(w) ==> w@ == v@ + 1,
    {
    }

    /// Two generations are the same exactly when their numbers are.
    pub proof fn lemma_view_injective(v: Self, w: Self)
        ensures
            (v@ == w@) <==> (v == w),
    {
    }

    /// The generation as a number; never zero.
    pub fn get(self) -> (r: u8)
        ensures
            r == self@,
            r >= 1,
    {
        proof {
            use_type_invariant(self);
        }
        self.value
    }
}

impl Version for Checked8 {
    closed spec fn initial() -> Self {
        Checked8 { value: 1 }
    }

    closed spec fn next(self) -> Option<Self> {
        if self.value < u8::MAX {
            Some(Checked8 { value: (self.value + 1) as u8 })
        } else {
            None
        }
    }

    fn new() -> (r: Self) {
        Checked8 { value: 1 }
    }

    fn increment(self) -> (r: Option<Self>) {
        proof {
            use_type_invariant(self);
        }
        match self.value.checked_add(1) {
            Some(value) => Some(Checked8 { value }),
            None => None,
        }
    }

    fn same(self, other: Self) -> (r: bool) {
        self.value == other.value
    }
}

/// A checked generation counter over `u16`: it starts at one and is
/// exhausted at `u16::MAX`.
#[derive(PartialEq, Eq, PartialOrd, Ord, Hash, Clone, Copy, Debug)]
pub struct Checked16 {
    value: u16,
}

impl Checked16 {
    #[verifier::type_invariant]
    spec fn positive(self) -> bool {
        self.value >= 1
    }

    pub closed spec fn view(self) -> nat {
        self.value as nat
    }

    /// The initial generation is one.
    pub proof fn lemma_initial()
        ensures
            Self::initial()@ == 1,
    {
    }

    /// A generation below `u16::MAX` advances by one; the last one is
    /// exhausted.
    pub proof fn lemma_next(v: Self)
        ensures
            v.next() is None <==> v@ == u16::MAX,
            v.next() matches Some(w) ==> w@ == v@ + 1,
    {
    }

    /// Two generations are the same exactly when their numbers are.
    pub proof fn lemma_view_injective(v: Self, w: Self)
        ensures
            (v@ == w@) <==> (v == w),
    {
    }

    /// The generation as a number; never zero.
    pub fn get(self) -> (r: u16)
        ensures
            r == self@,
            r >= 1,
    {
        proof {
            use_type_invariant(self);
        }
        self.value
    }
}

impl Version for Checked16 {
    closed spec fn initial() -> Self {
        Checked16 { value: 1 }
    }

    closed spec fn next(self) -> Option<Self> {
        if self.value < u16::MAX {
            Some(Checked16 { value: (self.value + 1) as u16 })
        } else {
            None
        }
    }

    fn new() -> (r: Self) {
        Checked16 { value: 1 }
    }

    fn increment(self) -> (r: Option<Self>) {
        proof {
            use_type_invariant(self);
        }
        match self.value.checked_add(1) {
            Some(value) => Some(Checked16 { value }),
            None => None,
        }
    }

    fn same(self, other: Self) -> (r: bool) {
        self.value == other.value
    }
}

/// A checked generation counter over `u64`: it starts at one and is
/// exhausted at `u64::MAX`.
#[derive(PartialEq, Eq, PartialOrd, Ord, Hash, Clone, Copy, Debug)]
pub struct Checked64 {
    value: u64,
}

impl Checked64 {
    #[verifier::type_invariant]
    spec fn positive(self) -> bool {
        self.value >= 1
    }

    pub closed spec fn view(self) -> nat {
        self.value as nat
    }

    /// The initial generation is one.
    pub proof fn lemma_initial()
        ensures
            Self::initial()@ == 1,
    {
    }

    /// A generation below `u64::MAX` advances by one; the last one is
    /// exhausted.
    pub proof fn lemma_next(v: Self)
        ensures
            v.next() is None <==> v@ == u64::MAX,
            v.next() matches Some(w) ==> w@ == v@ + 1,
    {
    }

    /// Two generations are the same exactly when their numbers are.
    pub proof fn lemma_view_injective(v: Self, w: Self)
        ensures
            (v@ == w@) <==> (v == w),
    {
    }

    /// The generation as a number; never zero.
    pub fn get(self) -> (r: u64)
        ensures
            r == self@,
            r >= 1,
    {
        proof {
            use_type_invariant(self);
        }
        self.value
    }
}

impl Version for Checked64 {
    closed spec fn initial() -> Self {
        Checked64 { value: 1 }
    }

    closed spec fn next(self) -> Option<Self> {
        if self.value < u64::MAX {
            Some(Checked64 { value: (self.value + 1) as u64 })
        } else {
            None
        }
    }

    fn new() -> (r: Self) {
        Checked64 { value: 1 }
    }

    fn increment(self) -> (r: Option<Self>) {
        proof {
            use_type_invariant(self);
        }
        match self.value.checked_add(1) {
            Some(value) => Some(Checked64 { value }),
            None => None,
        }
    }

    fn same(self, other: Self) -> (r: bool) {
        self.value == other.value
    }
}

/// A checked generation counter over `usize`: it starts at one and is
/// exhausted at `usize::MAX`.
#[derive(PartialEq, Eq, PartialOrd, Ord, Hash, Clone, Copy, Debug)]
pub struct CheckedUsize {
    value: usize,
}

impl CheckedUsize {
    #[verifier::type_invariant]
    spec fn positive(self) -> bool {
        self.value >= 1
    }

    pub closed spec fn view(self) -> nat {
        self.value as nat
    }

    /// The initial generation is one.
    pub proof fn lemma_initial()
        ensures
            Self::initial()@ == 1,
    {
    }

    /// A generation below `usize::MAX` advances by one; the last one is
    /// exhausted.
    pub proof fn lemma_next(v: Self)
        ensures
            v.next() is None <==> v@ == usize::MAX,
            v.next() matches Some(w) ==> w@ == v@ + 1,
    {
    }

    /// Two generations are the same exactly when their numbers are.
    pub proof fn lemma_view_injective(v: Self, w: Self)
        ensures
            (v@ == w@) <==> (v == w),
    {
    }

    /// The generation as a number; never zero.
    pub fn get(self) -> (r: usize)
        ensures
            r == self@,
            r >= 1,
    {
        proof {
            use_type_invariant(self);
        }
        self.value
    }
}

impl Version for CheckedUsize {
    closed spec fn initial() -> Self {
        CheckedUsize { value: 1 }
    }

    closed spec fn next(self) -> Option<Self> {
        if self.value < usize::MAX {
            Some(CheckedUsize { value: (self.value + 1) as usize })
        } else {
            None
        }
    }

    fn new() -> (r: Self) {
        CheckedUsize { value: 1 }
    }

    fn increment(self) -> (r: Option<Self>) {
        proof {
            use_type_invariant(self);
        }
        match self.value.checked_add(1) {
            Some(value) => Some(CheckedUsize { value }),
            None => None,
        }
    }

    fn same(self, other: Self) -> (r: bool) {
        self.value == other.value
    }
}

} // verus!
