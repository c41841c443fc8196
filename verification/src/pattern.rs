//! Patterns: what an argument must look like, and the names it binds.
//!
//! A match is stated over the contents of patterns and values:
//! [`pattern_match`] says whether one value fits one pattern and what is
//! bound, [`multi_match`] says it of an argument list.

use crate::bindings::{Bindings, Env};
use crate::bitstring::{concat_all, Bit, BitString};
use crate::value::{values_view, Value, ValueView};
use vstd::prelude::*;

verus! {

/// One position of a pattern of fixed length.
#[derive(Debug, PartialEq, Eq)]
pub enum ConstLenPatternElement {
    /// The bit at this position must be this one.
    ConstBit(Bit),
    /// Any bit fits; it is bound, as a string of one bit, to the name.
    AnyBit { var_name: String },
}

/// The mathematical content of a [`ConstLenPatternElement`].
pub enum ElementView {
    ConstBit(Bit),
    AnyBit { var_name: Seq<char> },
}

impl View for ConstLenPatternElement {
    type V = ElementView;

    open spec fn view(&self) -> ElementView {
        match self {
            ConstLenPatternElement::ConstBit(b) => ElementView::ConstBit(*b),
            ConstLenPatternElement::AnyBit { var_name } => ElementView::AnyBit {
                var_name: var_name@,
            },
        }
    }
}

impl Clone for ConstLenPatternElement {
    fn clone(&self) -> (r: Self)
        ensures
            r@ == self@,
    {
        match self {
            ConstLenPatternElement::ConstBit(b) => ConstLenPatternElement::ConstBit(*b),
            ConstLenPatternElement::AnyBit { var_name } => ConstLenPatternElement::AnyBit {
                var_name: var_name.clone(),
            },
        }
    }
}

/// A pattern for bit strings of one length: one element for each bit.
#[derive(Debug, PartialEq, Eq)]
pub struct ConstLenPattern {
    pub elements: Vec<ConstLenPatternElement>,
}

impl View for ConstLenPattern {
    type V = Seq<ElementView>;

    open spec fn view(&self) -> Seq<ElementView> {
        self.elements@.map_values(|e: ConstLenPatternElement| e@)
    }
}

impl Clone for ConstLenPattern {
    fn clone(&self) -> (r: Self)
        ensures
            r@ == self@,
    {
        let elements = self.elements.clone();
        assert(elements@.map_values(|e: ConstLenPatternElement| e@) =~= self.elements@.map_values(
            |e: ConstLenPatternElement| e@,
        ));
        ConstLenPattern { elements }
    }
}

/// A pattern for bit strings of any sufficient length: fixed patterns for
/// both ends, and a name for what lies between.
#[derive(Debug, PartialEq, Eq)]
pub struct VarLenPattern {
    pub left: ConstLenPattern,
    pub bit_string_var_name: String,
    pub right: ConstLenPattern,
}

/// The mathematical content of a [`VarLenPattern`].
pub struct VarLenView {
    pub left: Seq<ElementView>,
    pub middle_name: Seq<char>,
    pub right: Seq<ElementView>,
}

impl View for VarLenPattern {
    type V = VarLenView;

    open spec fn view(&self) -> VarLenView {
        VarLenView {
            left: self.left@,
            middle_name: self.bit_string_var_name@,
            right: self.right@,
        }
    }
}

impl Clone for VarLenPattern {
    fn clone(&self) -> (r: Self)
        ensures
            r@ == self@,
    {
        VarLenPattern {
            left: self.left.clone(),
            bit_string_var_name: self.bit_string_var_name.clone(),
            right: self.right.clone(),
        }
    }
}

/// A pattern for one argument.
#[derive(Debug, PartialEq, Eq)]
pub enum Pattern {
    /// Fits any value, a callable too, and binds it to the name.
    Anything { name: String },
    ConstLen(ConstLenPattern),
    VarLen(VarLenPattern),
}

/// The mathematical content of a [`Pattern`].
pub enum PatternView {
    Anything { name: Seq<char> },
    ConstLen(Seq<ElementView>),
    VarLen(VarLenView),
}

impl View for Pattern {
    type V = PatternView;

    open spec fn view(&self) -> PatternView {
        match self {
            Pattern::Anything { name } => PatternView::Anything { name: name@ },
            Pattern::ConstLen(p) => PatternView::ConstLen(p@),
            Pattern::VarLen(p) => PatternView::VarLen(p@),
        }
    }
}

impl Clone for Pattern {
    fn clone(&self) -> (r: Self)
        ensures
            r@ == self@,
    {
        match self {
            Pattern::Anything { name } => Pattern::Anything { name: name.clone() },
            Pattern::ConstLen(p) => Pattern::ConstLen(p.clone()),
            Pattern::VarLen(p) => Pattern::VarLen(p.clone()),
        }
    }
}

/// The patterns for an argument list, one for each position.
#[derive(Debug, PartialEq, Eq)]
pub struct MultiPattern(pub Vec<Pattern>);

impl View for MultiPattern {
    type V = Seq<PatternView>;

    open spec fn view(&self) -> Seq<PatternView> {
        self.0@.map_values(|p: Pattern| p@)
    }
}

impl Clone for MultiPattern {
    fn clone(&self) -> (r: Self)
        ensures
            r@ == self@,
    {
        let patterns = self.0.clone();
        assert(patterns@.map_values(|p: Pattern| p@) =~= self.0@.map_values(|p: Pattern| p@));
        MultiPattern(patterns)
    }
}

/// The value that an `AnyBit` element binds: the string of that one bit.
pub open spec fn one_bit<N>(bit: Bit) -> ValueView<N> {
    ValueView::BitString(seq![bit])
}

/// Whether `bits` fits `elements`: as many bits as elements, and each
/// literal bit met.
pub open spec fn elements_match(elements: Seq<ElementView>, bits: Seq<Bit>) -> bool {
    &&& elements.len() == bits.len()
    &&& forall|i: int|
        0 <= i < elements.len() ==> ((#[trigger] elements[i]) matches ElementView::ConstBit(b)
            ==> b == bits[i])
}

/// What `elements` binds on `bits`: each `AnyBit` name to the bit at its
/// position. Where a name occurs twice, the later position decides.
pub open spec fn elements_bind<N>(elements: Seq<ElementView>, bits: Seq<Bit>) -> Env<N>
    decreases elements.len(),
{
    if elements.len() == 0 {
        Map::empty()
    } else {
        let before = elements_bind::<N>(elements.drop_last(), bits.drop_last());
        match elements.last() {
            ElementView::AnyBit { var_name } => before.insert(var_name, one_bit(bits.last())),
            ElementView::ConstBit(_) => before,
        }
    }
}

/// Whether `bits` fits a pattern of variable length: long enough for both
/// ends, and each end fitting its part.
pub open spec fn var_len_match(pattern: VarLenView, bits: Seq<Bit>) -> bool {
    &&& pattern.left.len() + pattern.right.len() <= bits.len()
    &&& elements_match(pattern.left, bits.subrange(0, pattern.left.len() as int))
    &&& elements_match(
        pattern.right,
        bits.subrange(bits.len() - pattern.right.len(), bits.len() as int),
    )
}

/// What a pattern of variable length binds on `bits`: what the left end
/// binds, the middle under its name, what the right end binds. Where a name
/// occurs twice, the later of these decides.
pub open spec fn var_len_bind<N>(pattern: VarLenView, bits: Seq<Bit>) -> Env<N> {
    let from = pattern.left.len() as int;
    let to = bits.len() - pattern.right.len();
    elements_bind::<N>(pattern.left, bits.subrange(0, from)).insert(
        pattern.middle_name,
        ValueView::BitString(bits.subrange(from, to)),
    ).union_prefer_right(elements_bind::<N>(pattern.right, bits.subrange(to, bits.len() as int)))
}

/// What one pattern binds on one value; nothing where the value does not fit.
pub open spec fn pattern_match<N>(pattern: PatternView, value: ValueView<N>) -> Option<Env<N>> {
    match pattern {
        PatternView::Anything { name } => Some(Map::empty().insert(name, value)),
        PatternView::ConstLen(elements) => match value {
            ValueView::BitString(bits) => if elements_match(elements, bits) {
                Some(elements_bind(elements, bits))
            } else {
                None
            },
            ValueView::Callable(_) => None,
        },
        PatternView::VarLen(p) => match value {
            ValueView::BitString(bits) => if var_len_match(p, bits) {
                Some(var_len_bind(p, bits))
            } else {
                None
            },
            ValueView::Callable(_) => None,
        },
    }
}

/// What the patterns bind, position by position, on arguments that all fit.
/// Where a name occurs twice, the later position decides.
pub open spec fn multi_bind<N>(patterns: Seq<PatternView>, args: Seq<ValueView<N>>) -> Env<N>
    decreases patterns.len(),
{
    if patterns.len() == 0 {
        Map::empty()
    } else {
        pattern_match(patterns[0], args[0]).unwrap().union_prefer_right(
            multi_bind(patterns.skip(1), args.skip(1)),
        )
    }
}

/// What the patterns bind on an argument list; nothing unless there are as
/// many arguments as patterns and each argument fits the pattern at its position.
pub open spec fn multi_match<N>(patterns: Seq<PatternView>, args: Seq<ValueView<N>>) -> Option<
    Env<N>,
> {
    if patterns.len() == args.len() && forall|i: int|
        0 <= i < patterns.len() ==> (#[trigger] pattern_match(patterns[i], args[i])) is Some {
        Some(multi_bind(patterns, args))
    } else {
        None
    }
}

/// A pattern for one argument that can be tried on a value.
pub trait PatternParse<N> {
    /// What must be bound for each value, stated over contents.
    spec fn matching(&self, arg: ValueView<N>) -> Option<Env<N>>;

    /// Tries the pattern on `arg`: the bindings where it fits, nothing where
    /// it does not.
    fn parse(&self, arg: Value<N>) -> (r: Option<Bindings<N>>)
        ensures
            self.matching(arg@) is Some ==> (r matches Some(b) && Some(b@) == self.matching(arg@)),
            self.matching(arg@) is None ==> r is None,
    ;
}

/// The patterns for an argument list that can be tried on one.
pub trait PatternParseMulti<N> {
    /// What must be bound for each argument list, stated over contents.
    spec fn matching(&self, args: Seq<ValueView<N>>) -> Option<Env<N>>;

    /// Tries the patterns on `args`: the bindings where all fit, nothing
    /// where one does not or the count differs.
    fn parse(&self, args: Vec<Value<N>>) -> (r: Option<Bindings<N>>)
        ensures
            self.matching(values_view(args@)) is Some ==> (r matches Some(b) && Some(b@)
                == self.matching(values_view(args@))),
            self.matching(values_view(args@)) is None ==> r is None,
    ;
}

impl ConstLenPatternElement {
    /// Tries the element on one bit. A literal bit that differs gives
    /// nothing; one that agrees gives no binding; `AnyBit` gives its name with
    /// the string of that bit.
    pub fn parse(&self, arg: Bit) -> (r: Option<Option<(String, BitString)>>)
        ensures
            match self@ {
                ElementView::ConstBit(b) => r == (if arg == b {
                    Some(None::<(String, BitString)>)
                } else {
                    None
                }),
                ElementView::AnyBit { var_name } => r matches Some(Some(pair)) && pair.0@
                    == var_name && pair.1@ == seq![arg],
            },
    {
        match self {
            ConstLenPatternElement::ConstBit(bit) => {
                if arg == *bit {
                    Some(None)
                } else {
                    None
                }
            },
            ConstLenPatternElement::AnyBit { var_name } => {
                let bits: [Bit; 1] = [arg];
                let string = BitString::from_bits(bits.as_slice());
                assert(string@ =~= seq![arg]);
                Some(Some((var_name.clone(), string)))
            },
        }
    }
}

impl ConstLenPattern {
    /// How many bits the pattern asks for.
    pub fn len(&self) -> (r: usize)
        ensures
            r == self@.len(),
    {
        self.elements.len()
    }

    /// The pattern that only the empty string fits.
    pub fn empty() -> (r: ConstLenPattern)
        ensures
            r@ == Seq::<ElementView>::empty(),
    {
        let r = ConstLenPattern { elements: Vec::new() };
        assert(r@ =~= Seq::<ElementView>::empty());
        r
    }

    /// Tries the pattern on a bit string.
    fn parse_bits<N>(&self, bits: &BitString) -> (r: Option<Bindings<N>>)
        ensures
            elements_match(self@, bits@) ==> (r matches Some(b) && b@ == elements_bind::<N>(
                self@,
                bits@,
            )),
            !elements_match(self@, bits@) ==> r is None,
    {
        if bits.len() != self.elements.len() {
            return None;
        }
        let mut bindings: Bindings<N> = Bindings::empty();
        let mut i: usize = 0;
        while i < self.elements.len()
            invariant
                i <= self.elements.len(),
                bits@.len() == self.elements.len(),
                elements_match(self@.take(i as int), bits@.take(i as int)),
                bindings@ == elements_bind::<N>(self@.take(i as int), bits@.take(i as int)),
            decreases self.elements.len() - i,
        {
            let bit: Bit = bits.bit_at(i).unwrap();
            let ghost next_elements = self@.take(i as int + 1);
            let ghost next_bits = bits@.take(i as int + 1);
            assert(next_elements.drop_last() =~= self@.take(i as int));
            assert(next_bits.drop_last() =~= bits@.take(i as int));
            assert(next_elements.last() == self.elements[i as int]@);
            match self.elements[i].parse(bit) {
                None => {
                    assert(self@[i as int] matches ElementView::ConstBit(b) && b != bits@[i as int]);
                    return None;
                },
                Some(None) => {},
                Some(Some(pair)) => {
                    bindings.add(pair.0, Value::BitString(pair.1));
                },
            }
            assert forall|j: int| 0 <= j < next_elements.len() implies ((
            #[trigger] next_elements[j]) matches ElementView::ConstBit(b) ==> b == next_bits[j]) by {
                if j < i {
                    assert(self@.take(i as int)[j] == next_elements[j]);
                }
            }
            i += 1;
        }
        assert(self@.take(i as int) =~= self@);
        assert(bits@.take(i as int) =~= bits@);
        Some(bindings)
    }
}

impl<N> PatternParse<N> for ConstLenPattern {
    open spec fn matching(&self, arg: ValueView<N>) -> Option<Env<N>> {
        pattern_match(PatternView::ConstLen(self@), arg)
    }

    fn parse(&self, arg: Value<N>) -> (r: Option<Bindings<N>>) {
        match arg.into_bit_string() {
            Some(bits) => self.parse_bits(&bits),
            None => None,
        }
    }
}

impl VarLenPattern {
    /// What the middle of a match binds: the name of the pattern to `middle_str`.
    pub fn parse_middle<N>(&self, middle_str: BitString) -> (r: Bindings<N>)
        ensures
            r@ == Map::<Seq<char>, ValueView<N>>::empty().insert(
                self@.middle_name,
                ValueView::BitString(middle_str@),
            ),
    {
        let mut bindings: Bindings<N> = Bindings::empty();
        bindings.add(self.bit_string_var_name.clone(), Value::BitString(middle_str));
        bindings
    }
}

impl<N> PatternParse<N> for VarLenPattern {
    open spec fn matching(&self, arg: ValueView<N>) -> Option<Env<N>> {
        pattern_match(PatternView::VarLen(self@), arg)
    }

    fn parse(&self, arg: Value<N>) -> (r: Option<Bindings<N>>) {
        let bitstring = match arg.into_bit_string() {
            Some(s) => s,
            None => {
                return None;
            },
        };
        let left_len: usize = self.left.len();
        let right_len: usize = self.right.len();
        let total_len: usize = bitstring.len();
        if left_len > total_len || right_len > total_len - left_len {
            return None;
        }
        let right_from: usize = total_len - right_len;
        let left_str = bitstring.slice(0, left_len).unwrap();
        let middle_str = bitstring.slice(left_len, right_from).unwrap();
        let right_str = bitstring.slice(right_from, total_len).unwrap();
        let left_parsed: Bindings<N> = match self.left.parse_bits(&left_str) {
            Some(b) => b,
            None => {
                return None;
            },
        };
        let middle_parsed: Bindings<N> = self.parse_middle(middle_str);
        let right_parsed: Bindings<N> = match self.right.parse_bits(&right_str) {
            Some(b) => b,
            None => {
                return None;
            },
        };
        let r = left_parsed.union_with(middle_parsed).union_with(right_parsed);
        assert(r@ =~= var_len_bind::<N>(self@, bitstring@));
        Some(r)
    }
}

/// The content of what may be one end of a pattern of variable length:
/// no element where the end is missing.
pub open spec fn end_view(end: Option<ConstLenPattern>) -> Seq<ElementView> {
    match end {
        Some(pattern) => pattern@,
        None => Seq::empty(),
    }
}

impl Pattern {
    /// The pattern that a name makes with what may stand to its left and to
    /// its right: with neither, the pattern that fits anything; else the
    /// pattern of variable length, a missing end empty.
    pub fn around(left: Option<ConstLenPattern>, name: String, right: Option<ConstLenPattern>) -> (r:
        Pattern)
        ensures
            r@ == (if left is None && right is None {
                PatternView::Anything { name: name@ }
            } else {
                PatternView::VarLen(
                    VarLenView {
                        left: end_view(left),
                        middle_name: name@,
                        right: end_view(right),
                    },
                )
            }),
    {
        match (left, right) {
            (None, None) => Pattern::Anything { name },
            (maybe_left, maybe_right) => Pattern::VarLen(
                VarLenPattern {
                    left: match maybe_left {
                        Some(pattern) => pattern,
                        None => ConstLenPattern::empty(),
                    },
                    bit_string_var_name: name,
                    right: match maybe_right {
                        Some(pattern) => pattern,
                        None => ConstLenPattern::empty(),
                    },
                },
            ),
        }
    }

    /// The pattern that only the empty string fits.
    pub fn empty() -> (r: Pattern)
        ensures
            r@ == PatternView::ConstLen(Seq::<ElementView>::empty()),
    {
        Pattern::ConstLen(ConstLenPattern::empty())
    }
}

impl<N> PatternParse<N> for Pattern {
    open spec fn matching(&self, arg: ValueView<N>) -> Option<Env<N>> {
        pattern_match(self@, arg)
    }

    fn parse(&self, arg: Value<N>) -> (r: Option<Bindings<N>>) {
        match self {
            Pattern::Anything { name } => {
                let mut bindings: Bindings<N> = Bindings::empty();
                bindings.add(name.clone(), arg);
                Some(bindings)
            },
            Pattern::ConstLen(pat) => pat.parse(arg),
            Pattern::VarLen(pat) => pat.parse(arg),
        }
    }
}

impl<N> PatternParseMulti<N> for MultiPattern {
    open spec fn matching(&self, args: Seq<ValueView<N>>) -> Option<Env<N>> {
        multi_match(self@, args)
    }

    fn parse(&self, args: Vec<Value<N>>) -> (r: Option<Bindings<N>>) {
        let ghost all = values_view(args@);
        if args.len() != self.0.len() {
            return None;
        }
        let mut rest = args;
        let mut bindings: Bindings<N> = Bindings::empty();
        let mut i: usize = self.0.len();
        while i > 0
            invariant
                i <= self.0.len(),
                all == values_view(args@),
                all.len() == self.0.len(),
                rest@.len() == i,
                values_view(rest@) == all.take(i as int),
                forall|j: int|
                    i <= j < self@.len() ==> (#[trigger] pattern_match(self@[j], all[j])) is Some,
                bindings@ == multi_bind(self@.skip(i as int), all.skip(i as int)),
            decreases i,
        {
            i -= 1;
            let ghost before = rest@;
            let arg = rest.pop().unwrap();
            assert(arg@ == all[i as int]) by {
                assert(values_view(before)[i as int] == before[i as int]@);
            }
            assert(values_view(rest@) =~= all.take(i as int));
            match self.0[i].parse(arg) {
                Some(found) => {
                    proof {
                        let ps = self@.skip(i as int);
                        let vs = all.skip(i as int);
                        assert(ps.skip(1) =~= self@.skip(i as int + 1));
                        assert(vs.skip(1) =~= all.skip(i as int + 1));
                        assert(ps[0] == self@[i as int]);
                        assert(vs[0] == all[i as int]);
                    }
                    bindings = found.union_with(bindings);
                },
                None => {
                    assert(pattern_match(self@[i as int], all[i as int]) is None);
                    return None;
                },
            }
        }
        assert(self@.skip(0) =~= self@);
        assert(all.skip(0) =~= all);
        Some(bindings)
    }
}

/// Whether some `AnyBit` element binds `name`.
pub open spec fn elements_name(elements: Seq<ElementView>, name: Seq<char>) -> bool {
    exists|i: int|
        0 <= i < elements.len() && #[trigger] elements[i] == (ElementView::AnyBit {
            var_name: name,
        })
}

/// Whether no name is bound by two elements.
pub open spec fn elements_distinct(elements: Seq<ElementView>) -> bool {
    forall|i: int, j: int|
        0 <= i < j < elements.len() && (#[trigger] elements[i]) is AnyBit ==> elements[i]
            != #[trigger] elements[j]
}

/// Whether the pattern binds `name`.
pub open spec fn pattern_name(pattern: PatternView, name: Seq<char>) -> bool {
    match pattern {
        PatternView::Anything { name: bound } => bound == name,
        PatternView::ConstLen(elements) => elements_name(elements, name),
        PatternView::VarLen(p) => elements_name(p.left, name) || p.middle_name == name
            || elements_name(p.right, name),
    }
}

/// Whether the pattern binds no name twice.
pub open spec fn pattern_distinct(pattern: PatternView) -> bool {
    match pattern {
        PatternView::Anything { .. } => true,
        PatternView::ConstLen(elements) => elements_distinct(elements),
        PatternView::VarLen(p) => {
            &&& elements_distinct(p.left)
            &&& elements_distinct(p.right)
            &&& !elements_name(p.left, p.middle_name)
            &&& !elements_name(p.right, p.middle_name)
            &&& forall|name: Seq<char>|
                !(#[trigger] elements_name(p.left, name) && elements_name(p.right, name))
        },
    }
}

/// Whether the patterns of an argument list bind no name twice, neither
/// within one position nor in two.
pub open spec fn multi_distinct(patterns: Seq<PatternView>) -> bool {
    &&& forall|i: int| 0 <= i < patterns.len() ==> pattern_distinct(#[trigger] patterns[i])
    &&& forall|i: int, j: int, name: Seq<char>|
        0 <= i < patterns.len() && 0 <= j < patterns.len() && i != j ==> !(#[trigger] pattern_name(
            patterns[i],
            name,
        ) && #[trigger] pattern_name(patterns[j], name))
}

/// The bits of a value that is a bit string.
pub open spec fn bits_of<N>(value: ValueView<N>) -> Seq<Bit> {
    match value {
        ValueView::BitString(bits) => bits,
        ValueView::Callable(_) => Seq::empty(),
    }
}

/// What each element stands for under `env`: a literal bit for itself, an
/// `AnyBit` for the bits bound to its name.
pub open spec fn element_parts<N>(elements: Seq<ElementView>, env: Env<N>) -> Seq<Seq<Bit>> {
    Seq::new(
        elements.len(),
        |i: int|
            match elements[i] {
                ElementView::ConstBit(b) => seq![b],
                ElementView::AnyBit { var_name } => bits_of(env[var_name]),
            },
    )
}

/// The bit string that the elements spell under `env`: the literal bits and
/// the bound bits, in the order of the elements.
pub open spec fn rebuild_elements<N>(elements: Seq<ElementView>, env: Env<N>) -> Seq<Bit> {
    concat_all(element_parts(elements, env))
}

/// The value that the pattern spells under `env`: the literal bits and the
/// bound bits in their order; for `Anything`, the value bound.
pub open spec fn rebuild_pattern<N>(pattern: PatternView, env: Env<N>) -> ValueView<N> {
    match pattern {
        PatternView::Anything { name } => env[name],
        PatternView::ConstLen(elements) => ValueView::BitString(rebuild_elements(elements, env)),
        PatternView::VarLen(p) => ValueView::BitString(
            rebuild_elements(p.left, env) + bits_of(env[p.middle_name]) + rebuild_elements(
                p.right,
                env,
            ),
        ),
    }
}

/// The elements bind exactly the names of their `AnyBit` elements.
pub proof fn lemma_elements_bind_names<N>(
    elements: Seq<ElementView>,
    bits: Seq<Bit>,
    name: Seq<char>,
)
    ensures
        elements_bind::<N>(elements, bits).contains_key(name) <==> elements_name(elements, name),
    decreases elements.len(),
{
    if elements.len() > 0 {
        let before = elements.drop_last();
        lemma_elements_bind_names::<N>(before, bits.drop_last(), name);
        if elements_name(before, name) {
            let i = choose|i: int|
                0 <= i < before.len() && #[trigger] before[i] == (ElementView::AnyBit {
                    var_name: name,
                });
            assert(elements[i] == before[i]);
        }
        if elements_name(elements, name) {
            let i = choose|i: int|
                0 <= i < elements.len() && #[trigger] elements[i] == (ElementView::AnyBit {
                    var_name: name,
                });
            if i < before.len() {
                assert(before[i] == elements[i]);
            }
        }
        if elements.last() == (ElementView::AnyBit { var_name: name }) {
            assert(elements[elements.len() - 1] == elements.last());
        }
    }
}

/// A name stands for the bit at the last position that binds it.
pub proof fn lemma_elements_bind_at<N>(elements: Seq<ElementView>, bits: Seq<Bit>, i: int)
    requires
        elements.len() == bits.len(),
        0 <= i < elements.len(),
        elements[i] is AnyBit,
        forall|j: int| i < j < elements.len() ==> #[trigger] elements[j] != elements[i],
    ensures
        elements_bind::<N>(elements, bits).contains_key(elements[i]->var_name),
        elements_bind::<N>(elements, bits)[elements[i]->var_name] == one_bit::<N>(bits[i]),
    decreases elements.len(),
{
    if i < elements.len() - 1 {
        let before = elements.drop_last();
        assert(before[i] == elements[i]);
        assert forall|j: int| i < j < before.len() implies #[trigger] before[j] != before[i] by {
            assert(before[j] == elements[j]);
        }
        lemma_elements_bind_at::<N>(before, bits.drop_last(), i);
        assert(elements[elements.len() - 1] != elements[i]);
    }
}

/// Under an environment in which each `AnyBit` name stands for the bit at
/// its position, the elements spell the bit string that they fit.
pub proof fn lemma_rebuild_elements<N>(elements: Seq<ElementView>, bits: Seq<Bit>, env: Env<N>)
    requires
        elements_match(elements, bits),
        forall|i: int|
            0 <= i < elements.len() ==> ((#[trigger] elements[i]) matches ElementView::AnyBit {
                var_name,
            } ==> bits_of(env[var_name]) == seq![bits[i]]),
    ensures
        rebuild_elements(elements, env) == bits,
    decreases elements.len(),
{
    let parts = element_parts(elements, env);
    if elements.len() == 0 {
        assert(rebuild_elements(elements, env) =~= bits);
    } else {
        let before = elements.drop_last();
        assert forall|i: int| 0 <= i < before.len() implies ((
        #[trigger] before[i]) matches ElementView::ConstBit(b) ==> b == bits.drop_last()[i]) by {
            assert(before[i] == elements[i]);
        }
        assert forall|i: int| 0 <= i < before.len() implies ((
        #[trigger] before[i]) matches ElementView::AnyBit { var_name } ==> bits_of(env[var_name])
            == seq![bits.drop_last()[i]]) by {
            assert(before[i] == elements[i]);
        }
        lemma_rebuild_elements(before, bits.drop_last(), env);
        assert(parts.drop_last() =~= element_parts(before, env));
        let last = elements.len() - 1;
        assert(elements[last] == elements.last());
        assert(parts.last() =~= seq![bits[last]]);
        assert(bits.drop_last() + seq![bits[last]] =~= bits);
    }
}

/// The elements of a pattern spell the bit string they fit, under every
/// environment that agrees with what they bind; no name bound twice.
proof fn lemma_elements_round_trip<N>(
    elements: Seq<ElementView>,
    bits: Seq<Bit>,
    env: Env<N>,
)
    requires
        elements_match(elements, bits),
        elements_distinct(elements),
        forall|name: Seq<char>| #[trigger]
            elements_name(elements, name) ==> env[name] == elements_bind::<N>(elements, bits)[name],
    ensures
        rebuild_elements(elements, env) == bits,
{
    assert forall|i: int| 0 <= i < elements.len() implies ((
    #[trigger] elements[i]) matches ElementView::AnyBit { var_name } ==> bits_of(env[var_name])
        == seq![bits[i]]) by {
        if elements[i] is AnyBit {
            let name = elements[i]->var_name;
            assert(elements_name(elements, name));
            lemma_elements_bind_at::<N>(elements, bits, i);
        }
    }
    lemma_rebuild_elements(elements, bits, env);
}

/// A match binds exactly the names of its pattern.
pub proof fn lemma_pattern_match_names<N>(
    pattern: PatternView,
    value: ValueView<N>,
    name: Seq<char>,
)
    requires
        pattern_match(pattern, value) is Some,
    ensures
        pattern_match(pattern, value).unwrap().contains_key(name) <==> pattern_name(pattern, name),
{
    match pattern {
        PatternView::Anything { .. } => {},
        PatternView::ConstLen(elements) => {
            lemma_elements_bind_names::<N>(elements, bits_of(value), name);
        },
        PatternView::VarLen(p) => {
            let bits = bits_of(value);
            let from = p.left.len() as int;
            let to = bits.len() - p.right.len();
            lemma_elements_bind_names::<N>(p.left, bits.subrange(0, from), name);
            lemma_elements_bind_names::<N>(p.right, bits.subrange(to, bits.len() as int), name);
        },
    }
}

/// A pattern that binds no name twice spells the value it fits: under what
/// the match binds, and under every environment that agrees with it on the
/// names of the pattern, the literal bits and the bound bits in their order
/// are the value.
pub proof fn lemma_pattern_round_trip<N>(pattern: PatternView, value: ValueView<N>, env: Env<N>)
    requires
        pattern_match(pattern, value) is Some,
        pattern_distinct(pattern),
        forall|name: Seq<char>| #[trigger]
            pattern_name(pattern, name) ==> env[name] == pattern_match(
                pattern,
                value,
            ).unwrap()[name],
    ensures
        rebuild_pattern(pattern, env) == value,
{
    let bound = pattern_match(pattern, value).unwrap();
    match pattern {
        PatternView::Anything { name } => {
            assert(pattern_name(pattern, name));
        },
        PatternView::ConstLen(elements) => {
            let bits = bits_of(value);
            assert forall|name: Seq<char>| #[trigger]
                elements_name(elements, name) implies env[name] == elements_bind::<N>(
                elements,
                bits,
            )[name] by {
                assert(pattern_name(pattern, name));
            }
            lemma_elements_round_trip(elements, bits, env);
        },
        PatternView::VarLen(p) => {
            let bits = bits_of(value);
            let from = p.left.len() as int;
            let to = bits.len() - p.right.len();
            let left_bits = bits.subrange(0, from);
            let middle = bits.subrange(from, to);
            let right_bits = bits.subrange(to, bits.len() as int);
            let left = elements_bind::<N>(p.left, left_bits);
            let right = elements_bind::<N>(p.right, right_bits);
            assert forall|name: Seq<char>| #[trigger]
                elements_name(p.left, name) implies env[name] == left[name] by {
                assert(pattern_name(pattern, name));
                lemma_elements_bind_names::<N>(p.right, right_bits, name);
                lemma_elements_bind_names::<N>(p.left, left_bits, name);
                assert(!elements_name(p.right, name));
                assert(name != p.middle_name);
                assert(bound == var_len_bind::<N>(p, bits));
                assert(bound[name] == left[name]);
            }
            assert forall|name: Seq<char>| #[trigger]
                elements_name(p.right, name) implies env[name] == right[name] by {
                assert(pattern_name(pattern, name));
                lemma_elements_bind_names::<N>(p.right, right_bits, name);
                assert(bound == var_len_bind::<N>(p, bits));
                assert(bound[name] == right[name]);
            }
            lemma_elements_round_trip(p.left, left_bits, env);
            lemma_elements_round_trip(p.right, right_bits, env);
            assert(pattern_name(pattern, p.middle_name));
            lemma_elements_bind_names::<N>(p.right, right_bits, p.middle_name);
            assert(bound == var_len_bind::<N>(p, bits));
            assert(bound[p.middle_name] == ValueView::<N>::BitString(middle));
            assert(bits_of(env[p.middle_name]) == middle);
            assert(left_bits + middle + right_bits =~= bits);
        },
    }
}

/// What the patterns bind holds only names of the patterns.
proof fn lemma_multi_bind_names<N>(
    patterns: Seq<PatternView>,
    args: Seq<ValueView<N>>,
    name: Seq<char>,
)
    requires
        multi_match(patterns, args) is Some,
        multi_bind(patterns, args).contains_key(name),
    ensures
        exists|j: int| 0 <= j < patterns.len() && pattern_name(#[trigger] patterns[j], name),
    decreases patterns.len(),
{
    if patterns.len() > 0 {
        let rest = patterns.skip(1);
        let rest_args = args.skip(1);
        assert(pattern_match(patterns[0], args[0]) is Some);
        assert forall|i: int| 0 <= i < rest.len() implies (#[trigger] pattern_match(
            rest[i],
            rest_args[i],
        )) is Some by {
            assert(pattern_match(patterns[i + 1], args[i + 1]) is Some);
        }
        if multi_bind(rest, rest_args).contains_key(name) {
            lemma_multi_bind_names(rest, rest_args, name);
            let j = choose|j: int| 0 <= j < rest.len() && pattern_name(#[trigger] rest[j], name);
            assert(pattern_name(patterns[j + 1], name));
        } else {
            lemma_pattern_match_names(patterns[0], args[0], name);
            assert(pattern_name(patterns[0], name));
        }
    }
}

/// A name that one position binds, and no other, stands for what the match
/// at that position binds to it.
proof fn lemma_multi_bind_at<N>(
    patterns: Seq<PatternView>,
    args: Seq<ValueView<N>>,
    i: int,
    name: Seq<char>,
)
    requires
        multi_match(patterns, args) is Some,
        0 <= i < patterns.len(),
        pattern_name(patterns[i], name),
        forall|j: int|
            0 <= j < patterns.len() && j != i ==> !pattern_name(#[trigger] patterns[j], name),
    ensures
        multi_bind(patterns, args)[name] == pattern_match(patterns[i], args[i]).unwrap()[name],
    decreases patterns.len(),
{
    let rest = patterns.skip(1);
    let rest_args = args.skip(1);
    assert(pattern_match(patterns[0], args[0]) is Some);
    assert(pattern_match(patterns[i], args[i]) is Some);
    assert forall|k: int| 0 <= k < rest.len() implies (#[trigger] pattern_match(
        rest[k],
        rest_args[k],
    )) is Some by {
        assert(pattern_match(patterns[k + 1], args[k + 1]) is Some);
    }
    let first = pattern_match(patterns[0], args[0]).unwrap();
    let others = multi_bind(rest, rest_args);
    assert(multi_bind(patterns, args) == first.union_prefer_right(others));
    if i == 0 {
        if others.contains_key(name) {
            lemma_multi_bind_names(rest, rest_args, name);
            let j = choose|j: int| 0 <= j < rest.len() && pattern_name(#[trigger] rest[j], name);
            assert(pattern_name(patterns[j + 1], name));
        }
        lemma_pattern_match_names(patterns[0], args[0], name);
        assert(first.contains_key(name));
        assert(first.union_prefer_right(others)[name] == first[name]);
    } else {
        assert(rest[i - 1] == patterns[i]);
        assert forall|j: int| 0 <= j < rest.len() && j != i - 1 implies !pattern_name(
            #[trigger] rest[j],
            name,
        ) by {
            assert(rest[j] == patterns[j + 1]);
        }
        lemma_multi_bind_at(rest, rest_args, i - 1, name);
        lemma_pattern_match_names(patterns[i], args[i], name);
        assert(others.contains_key(name)) by {
            lemma_multi_bind_covers(rest, rest_args, i - 1, name);
        }
        assert(rest_args[i - 1] == args[i]);
        assert(first.union_prefer_right(others)[name] == others[name]);
    }
}

/// What the patterns bind holds every name of every pattern.
proof fn lemma_multi_bind_covers<N>(
    patterns: Seq<PatternView>,
    args: Seq<ValueView<N>>,
    i: int,
    name: Seq<char>,
)
    requires
        multi_match(patterns, args) is Some,
        0 <= i < patterns.len(),
        pattern_name(patterns[i], name),
    ensures
        multi_bind(patterns, args).contains_key(name),
    decreases patterns.len(),
{
    let rest = patterns.skip(1);
    let rest_args = args.skip(1);
    assert(pattern_match(patterns[0], args[0]) is Some);
    if i == 0 {
        lemma_pattern_match_names(patterns[0], args[0], name);
    } else {
        assert forall|k: int| 0 <= k < rest.len() implies (#[trigger] pattern_match(
            rest[k],
            rest_args[k],
        )) is Some by {
            assert(pattern_match(patterns[k + 1], args[k + 1]) is Some);
        }
        assert(rest[i - 1] == patterns[i]);
        lemma_multi_bind_covers(rest, rest_args, i - 1, name);
    }
}

/// Patterns that bind no name twice spell the arguments they fit: under
/// what a successful match binds, the pattern at each position spells the
/// argument at that position, the literal bits and the bound bits in their order.
pub proof fn lemma_multi_round_trip<N>(
    patterns: Seq<PatternView>,
    args: Seq<ValueView<N>>,
    i: int,
)
    requires
        multi_match(patterns, args) is Some,
        multi_distinct(patterns),
        0 <= i < patterns.len(),
    ensures
        rebuild_pattern(patterns[i], multi_match(patterns, args).unwrap()) == args[i],
{
    let env = multi_match(patterns, args).unwrap();
    assert(pattern_match(patterns[i], args[i]) is Some);
    assert forall|name: Seq<char>| #[trigger]
        pattern_name(patterns[i], name) implies env[name] == pattern_match(
        patterns[i],
        args[i],
    ).unwrap()[name] by {
        assert forall|j: int| 0 <= j < patterns.len() && j != i implies !pattern_name(
            #[trigger] patterns[j],
            name,
        ) by {}
        lemma_multi_bind_at(patterns, args, i, name);
    }
    lemma_pattern_round_trip(patterns[i], args[i], env);
}

} // verus!
