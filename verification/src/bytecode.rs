//! The instructions of the machine.

use crate::bitstring::{text_of_bits, Bit, BitString};
use vstd::prelude::*;

verus! {

/// One instruction.
#[derive(Debug, PartialEq, Eq)]
pub enum Instruction {
    /// Pushes the literal.
    LoadConst(BitString),
    /// Pushes what the name stands for; with `trampoline` set, a function
    /// that takes no argument is called at once and its result taken instead.
    LoadVar { name: String, trampoline: bool },
    /// Calls the callee that lies under that many arguments.
    Call(usize),
    /// Replaces that many bit strings by their concatenation.
    Cat(usize),
    /// Calls in tail position; that many bit strings under the callee go
    /// before, and that many after, what the callee returns.
    Tail { prepend: usize, append: usize },
}

/// The mathematical content of an [`Instruction`].
pub enum InstructionView {
    LoadConst(Seq<Bit>),
    LoadVar { name: Seq<char>, trampoline: bool },
    Call(nat),
    Cat(nat),
    Tail { prepend: nat, append: nat },
}

impl View for Instruction {
    type V = InstructionView;

    open spec fn view(&self) -> InstructionView {
        match self {
            Instruction::LoadConst(s) => InstructionView::LoadConst(s@),
            Instruction::LoadVar { name, trampoline } => InstructionView::LoadVar {
                name: name@,
                trampoline: *trampoline,
            },
            Instruction::Call(n) => InstructionView::Call(*n as nat),
            Instruction::Cat(n) => InstructionView::Cat(*n as nat),
            Instruction::Tail { prepend, append } => InstructionView::Tail {
                prepend: *prepend as nat,
                append: *append as nat,
            },
        }
    }
}

impl Clone for Instruction {
    fn clone(&self) -> (r: Self)
        ensures
            r@ == self@,
    {
        match self {
            Instruction::LoadConst(s) => Instruction::LoadConst(s.clone()),
            Instruction::LoadVar { name, trampoline } => Instruction::LoadVar {
                name: name.clone(),
                trampoline: *trampoline,
            },
            Instruction::Call(n) => Instruction::Call(*n),
            Instruction::Cat(n) => Instruction::Cat(*n),
            Instruction::Tail { prepend, append } => Instruction::Tail {
                prepend: *prepend,
                append: *append,
            },
        }
    }
}

/// The contents of a list of instructions, one by one.
pub open spec fn instructions_view(instructions: Seq<Instruction>) -> Seq<InstructionView> {
    instructions.map_values(|i: Instruction| i@)
}

/// The code of one alternative of a function.
#[derive(Debug, PartialEq, Eq)]
pub struct Bytecode {
    instructions: Vec<Instruction>,
}

impl View for Bytecode {
    type V = Seq<InstructionView>;

    closed spec fn view(&self) -> Seq<InstructionView> {
        instructions_view(self.instructions@)
    }
}

impl Clone for Bytecode {
    fn clone(&self) -> (r: Self)
        ensures
            r@ == self@,
    {
        let instructions = self.instructions.clone();
        assert(instructions_view(instructions@) =~= instructions_view(self.instructions@));
        Bytecode { instructions }
    }
}

impl Bytecode {
    /// The code that holds `instructions` in their order.
    pub fn new(instructions: Vec<Instruction>) -> (r: Self)
        ensures
            r@ == instructions_view(instructions@),
    {
        Self { instructions }
    }

    /// The instructions in their order.
    pub fn iter(&self) -> (r: Vec<Instruction>)
        ensures
            instructions_view(r@) == self@,
    {
        let instructions = self.instructions.clone();
        assert(instructions_view(instructions@) =~= instructions_view(self.instructions@));
        instructions
    }

    /// The instruction at `index`; nothing at or past the end.
    pub fn at(&self, index: usize) -> (r: Option<&Instruction>)
        ensures
            index < self@.len() ==> (r matches Some(i) && i@ == self@[index as int]),
            index >= self@.len() ==> r is None,
            self@.len() <= usize::MAX,
    {
        if index < self.instructions.len() {
            Some(&self.instructions[index])
        } else {
            None
        }
    }
}

/// The character for a digit.
pub open spec fn digit(d: nat) -> char {
    if d == 0 {
        '0'
    } else if d == 1 {
        '1'
    } else if d == 2 {
        '2'
    } else if d == 3 {
        '3'
    } else if d == 4 {
        '4'
    } else if d == 5 {
        '5'
    } else if d == 6 {
        '6'
    } else if d == 7 {
        '7'
    } else if d == 8 {
        '8'
    } else {
        '9'
    }
}

/// The number written in decimal digits, the most significant first.
pub open spec fn decimal(n: nat) -> Seq<char>
    decreases n,
{
    if n < 10 {
        seq![digit(n)]
    } else {
        decimal(n / 10).push(digit(n % 10))
    }
}

/// The one-line text of an instruction.
pub open spec fn instruction_text(instruction: InstructionView) -> Seq<char> {
    match instruction {
        InstructionView::LoadConst(bits) => "load_const "@ + text_of_bits(bits),
        InstructionView::LoadVar { name, trampoline } => if trampoline {
            "load_name "@ + name
        } else {
            "load_name !"@ + name
        },
        InstructionView::Call(n) => "call "@ + decimal(n),
        InstructionView::Cat(n) => "cat "@ + decimal(n),
        InstructionView::Tail { prepend, append } => "tail [pre = "@ + decimal(prepend)
            + "], [app = "@ + decimal(append) + "]"@,
    }
}

/// The text of a digit.
fn digit_text(d: usize) -> (r: &'static str)
    requires
        d < 10,
    ensures
        r@ == seq![digit(d as nat)],
{
    proof {
        reveal_strlit("0");
        reveal_strlit("1");
        reveal_strlit("2");
        reveal_strlit("3");
        reveal_strlit("4");
        reveal_strlit("5");
        reveal_strlit("6");
        reveal_strlit("7");
        reveal_strlit("8");
        reveal_strlit("9");
    }
    let r = if d == 0 {
        "0"
    } else if d == 1 {
        "1"
    } else if d == 2 {
        "2"
    } else if d == 3 {
        "3"
    } else if d == 4 {
        "4"
    } else if d == 5 {
        "5"
    } else if d == 6 {
        "6"
    } else if d == 7 {
        "7"
    } else if d == 8 {
        "8"
    } else {
        "9"
    };
    assert(r@ =~= seq![digit(d as nat)]);
    r
}

/// The number written in decimal digits.
pub fn decimal_text(n: usize) -> (r: String)
    ensures
        r@ == decimal(n as nat),
    decreases n,
{
    if n < 10 {
        digit_text(n).to_owned()
    } else {
        let mut text = decimal_text(n / 10);
        text.append(digit_text(n % 10));
        assert(text@ =~= decimal(n as nat));
        text
    }
}

/// Something with a one-line text for diagnostics.
pub trait Pretty {
    /// The text.
    spec fn text(&self) -> Seq<char>;

    fn pretty(&self) -> (r: String)
        ensures
            r@ == self.text(),
    ;
}

impl Pretty for Instruction {
    open spec fn text(&self) -> Seq<char> {
        instruction_text(self@)
    }

    fn pretty(&self) -> (r: String) {
        match self {
            Instruction::LoadConst(s) => {
                let mut text = "load_const ".to_owned();
                text.append(s.to_text().as_str());
                text
            },
            Instruction::LoadVar { name, trampoline } => {
                let mut text = if *trampoline {
                    "load_name ".to_owned()
                } else {
                    "load_name !".to_owned()
                };
                text.append(name.as_str());
                text
            },
            Instruction::Call(n) => {
                let mut text = "call ".to_owned();
                text.append(decimal_text(*n).as_str());
                text
            },
            Instruction::Cat(n) => {
                let mut text = "cat ".to_owned();
                text.append(decimal_text(*n).as_str());
                text
            },
            Instruction::Tail { prepend, append } => {
                let mut text = "tail [pre = ".to_owned();
                text.append(decimal_text(*prepend).as_str());
                text.append("], [app = ");
                text.append(decimal_text(*append).as_str());
                text.append("]");
                text
            },
        }
    }
}

} // verus!
