use vstd::prelude::*;

verus! {

/// One instruction of the stack-oriented intermediate representation.
#[derive(Debug, Clone, Copy, PartialEq, Eq, Structural)]
pub enum Instr {
    /// Push a constant.
    PushI32(i32),
    /// Discard the top of the operand stack.
    Pop,
    /// Push the value of a local slot.
    Load(usize),
    /// Pop the top of the operand stack into a local slot.
    Store(usize),
    Add,
    Sub,
    Mul,
    Div,
    /// Pop a value and print it in decimal, followed by a newline.
    Print,
    /// Pop the exit status (0 when the operand stack is empty) and end the program.
    Ret,
}

/// One function: its code and the number of local slots it uses.
#[derive(Debug, Clone)]
pub struct Func {
    pub name: String,
    pub code: Vec<Instr>,
    pub n_locals: usize,
    /// The variable name of each slot, by slot index.
    pub locals_dbg: Vec<String>,
}

/// A whole program: its functions, `main` among them.
#[derive(Debug, Clone)]
pub struct ProgramIR {
    pub funcs: Vec<Func>,
}

/// The name of the entry function.
pub open spec fn main_name() -> Seq<char> {
    seq!['m', 'a', 'i', 'n']
}

pub open spec fn is_main(f: Func) -> bool {
    f.name@ == main_name()
}

/// `i` is the position of the first function named `main`.
pub open spec fn is_first_main(funcs: Seq<Func>, i: int) -> bool {
    &&& 0 <= i < funcs.len()
    &&& is_main(funcs[i])
    &&& forall|j: int| 0 <= j < i ==> !is_main(#[trigger] funcs[j])
}

pub open spec fn has_main(funcs: Seq<Func>) -> bool {
    exists|i: int| 0 <= i < funcs.len() && is_main(#[trigger] funcs[i])
}

/// The position of the first function named `main`, if there is one.
pub open spec fn main_position(funcs: Seq<Func>) -> Option<int> {
    if exists|i: int| is_first_main(funcs, i) {
        Some(choose|i: int| is_first_main(funcs, i))
    } else {
        None
    }
}

pub proof fn lemma_first_main_unique(funcs: Seq<Func>, i: int, k: int)
    requires
        is_first_main(funcs, i),
        is_first_main(funcs, k),
    ensures
        i == k,
{
    if i < k {
        assert(!is_main(funcs[i]));
    } else if k < i {
        assert(!is_main(funcs[k]));
    }
}

/// Whether `s` is the word `main`.
fn is_main_name(s: &String) -> (r: bool)
    ensures
        r == (s@ == main_name()),
{
    let t = s.as_str();
    let n = t.unicode_len();
    if n != 4 {
        return false;
    }
    let r = t.get_char(0) == 'm' && t.get_char(1) == 'a' && t.get_char(2) == 'i' && t.get_char(3)
        == 'n';
    proof {
        if r {
            assert(s@ =~= main_name());
        }
    }
    r
}

impl ProgramIR {
    /// The position of the first function named `main`.
    pub fn main_index(&self) -> (r: Option<usize>)
        ensures
            match r {
                Some(i) => main_position(self.funcs@) == Some(i as int),
                None => main_position(self.funcs@) is None,
            },
            r is None <==> !has_main(self.funcs@),
    {
        let mut i: usize = 0;
        while i < self.funcs.len()
            invariant
                i <= self.funcs@.len(),
                forall|j: int| 0 <= j < i ==> !is_main(#[trigger] self.funcs@[j]),
            decreases self.funcs@.len() - i,
        {
            if is_main_name(&self.funcs[i].name) {
                proof {
                    assert(is_first_main(self.funcs@, i as int));
                    let k = choose|k: int| is_first_main(self.funcs@, k);
                    lemma_first_main_unique(self.funcs@, i as int, k);
                }
                return Some(i);
            }
            i += 1;
        }
        proof {
            assert(!exists|k: int| is_first_main(self.funcs@, k));
        }
        None
    }
}

} // verus!
