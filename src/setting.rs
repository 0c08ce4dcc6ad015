//! The state threaded through lowering: the name supply, the variable table
//! and the instructions emitted so far.

use vstd::prelude::*;
use crate::ir::{Inst, Label, inst_text, push_decimal, tmp_name};

verus! {

/// Hands out `tmp0`, `tmp1`, ... in order, never twice.
#[derive(Debug, Clone, Copy, PartialEq, Eq, Structural)]
pub struct TmpNameGen {
    counter: usize,
}

impl View for TmpNameGen {
    type V = nat;

    /// The index of the next temporary to be handed out.
    closed spec fn view(&self) -> nat {
        self.counter as nat
    }
}

impl TmpNameGen {
    pub fn new() -> (r: Self)
        ensures
            r@ == 0,
    {
        TmpNameGen { counter: 0 }
    }

    /// The index of the next temporary.
    pub fn count(&self) -> (r: usize)
        ensures
            r as nat == self@,
    {
        self.counter
    }

    /// Draws the next temporary and returns its index.
    pub fn next_index(&mut self) -> (r: usize)
        requires
            old(self)@ < usize::MAX,
        ensures
            r as nat == old(self)@,
            final(self)@ == old(self)@ + 1,
    {
        let k = self.counter;
        self.counter = self.counter + 1;
        k
    }

    /// Draws the next temporary and returns its name.
    pub fn next(&mut self) -> (r: String)
        requires
            old(self)@ < usize::MAX,
        ensures
            r@ == tmp_name(old(self)@),
            final(self)@ == old(self)@ + 1,
    {
        let k = self.next_index();
        let mut s = String::from_str("tmp");
        push_decimal(&mut s, k);
        s
    }
}

struct Binding {
    name: String,
    storage: usize,
}

/// The storage register of each identifier of the function being lowered.
pub struct Variables {
    entries: Vec<Binding>,
    map: Ghost<Map<Seq<char>, usize>>,
}

impl View for Variables {
    type V = Map<Seq<char>, usize>;

    closed spec fn view(&self) -> Map<Seq<char>, usize> {
        self.map@
    }
}

impl Variables {
    pub closed spec fn wf(&self) -> bool {
        &&& forall|k: Seq<char>| #[trigger]
            self.map@.contains_key(k) <==> exists|i: int|
                0 <= i < self.entries@.len() && self.entries@[i].name@ == k
        &&& forall|i: int|
            0 <= i < self.entries@.len() ==> self.map@[#[trigger] self.entries@[i].name@]
                == self.entries@[i].storage
        &&& forall|i: int, j: int|
            0 <= i < j < self.entries@.len() ==> #[trigger] self.entries@[i].name@
                != #[trigger] self.entries@[j].name@
    }

    pub fn new() -> (r: Self)
        ensures
            r.wf(),
            r@ == Map::<Seq<char>, usize>::empty(),
    {
        Variables { entries: Vec::new(), map: Ghost(Map::empty()) }
    }

    fn position(&self, name: &String) -> (r: Option<usize>)
        requires
            self.wf(),
        ensures
            match r {
                Some(i) => i < self.entries@.len() && self.entries@[i as int].name@ == name@,
                None => !self@.contains_key(name@),
            },
    {
        let mut i: usize = 0;
        while i < self.entries.len()
            invariant
                0 <= i <= self.entries@.len(),
                forall|j: int| 0 <= j < i ==> self.entries@[j].name@ != name@,
            decreases self.entries@.len() - i,
        {
            if self.entries[i].name == *name {
                return Some(i);
            }
            i = i + 1;
        }
        None
    }

    /// The storage register bound to `name`, if any.
    pub fn get(&self, name: &String) -> (r: Option<usize>)
        requires
            self.wf(),
        ensures
            r == (if self@.contains_key(name@) {
                Some(self@[name@])
            } else {
                None
            }),
    {
        match self.position(name) {
            Some(i) => Some(self.entries[i].storage),
            None => None,
        }
    }

    /// Binds `name` to `storage`, replacing an earlier binding of it.
    pub fn insert(&mut self, name: String, storage: usize)
        requires
            old(self).wf(),
        ensures
            final(self).wf(),
            final(self)@ == old(self)@.insert(name@, storage),
    {
        let ghost key = name@;
        let ghost old_entries = self.entries@;
        let pos = self.position(&name);
        let ghost at: int = match pos {
            Some(i) => i as int,
            None => old_entries.len() as int,
        };
        match pos {
            Some(i) => {
                self.entries.set(i, Binding { name, storage });
            },
            None => {
                self.entries.push(Binding { name, storage });
            },
        }
        self.map = Ghost(self.map@.insert(key, storage));
        proof {
            assert(self.entries@[at].name@ == key);
            assert forall|j: int| 0 <= j < self.entries@.len() && j != at implies
                #[trigger] self.entries@[j] == old_entries[j] by {}
            assert forall|k: Seq<char>| #[trigger]
                self.map@.contains_key(k) <==> exists|i: int|
                    0 <= i < self.entries@.len() && self.entries@[i].name@ == k by {
                if k == key {
                    assert(0 <= at < self.entries@.len() && self.entries@[at].name@ == k);
                } else if self.map@.contains_key(k) {
                    let j = choose|j: int|
                        0 <= j < old_entries.len() && old_entries[j].name@ == k;
                    assert(self.entries@[j].name@ == k);
                } else if exists|i: int| 0 <= i < self.entries@.len() && self.entries@[i].name@ == k {
                    let j = choose|j: int|
                        0 <= j < self.entries@.len() && self.entries@[j].name@ == k;
                    assert(j != at);
                    assert(old_entries[j].name@ == k);
                    assert(old(self).map@.contains_key(k));
                }
            }
        }
    }

    /// Forgets every binding.
    pub fn clear(&mut self)
        ensures
            final(self).wf(),
            final(self)@ == Map::<Seq<char>, usize>::empty(),
    {
        self.entries.clear();
        self.map = Ghost(Map::empty());
    }

    pub fn len(&self) -> (r: usize)
        requires
            self.wf(),
        ensures
            r == self@.len(),
    {
        proof {
            self.lemma_len();
        }
        self.entries.len()
    }

    proof fn lemma_len(&self)
        requires
            self.wf(),
        ensures
            self@.len() == self.entries@.len(),
    {
        let names = self.entries@.map_values(|b: Binding| b.name@);
        assert(names.no_duplicates());
        assert forall|k: Seq<char>| self@.dom().contains(k) <==> names.contains(k) by {
            if self@.dom().contains(k) {
                let i = choose|i: int|
                    0 <= i < self.entries@.len() && self.entries@[i].name@ == k;
                assert(names[i] == k);
            }
            if names.contains(k) {
                let i = choose|i: int| 0 <= i < names.len() && names[i] == k;
                assert(self.entries@[i].name@ == k);
            }
        }
        assert(self@.dom() =~= names.to_set());
        names.unique_seq_to_set();
    }
}

/// Whether instruction `i` defines register `k`.
pub open spec fn defines(i: Inst, k: usize) -> bool {
    match i {
        Inst::Const { dst, .. } => dst == k,
        Inst::Alloca { dst } => dst == k,
        Inst::Load { dst, .. } => dst == k,
        Inst::Arith { dst, .. } => dst == k,
        Inst::Compare { dst, .. } => dst == k,
        Inst::Widen { dst, .. } => dst == k,
        Inst::Narrow { dst, .. } => dst == k,
        Inst::Call { dst, .. } => dst == k,
        Inst::Define { params, .. } => params@.contains(k),
        _ => false,
    }
}

/// Every register defined in `code` was drawn before `count`.
pub open spec fn defs_below(code: Seq<Inst>, count: nat) -> bool {
    forall|i: int, k: usize| 0 <= i < code.len() && #[trigger] defines(code[i], k) ==> k < count
}

/// No register is defined by two instructions of `code`, nor twice by one
/// function header.
pub open spec fn defs_unique(code: Seq<Inst>) -> bool {
    &&& forall|i: int, j: int, k: usize|
        0 <= i < j < code.len() && #[trigger] defines(code[i], k) ==> !#[trigger] defines(
            code[j],
            k,
        )
    &&& forall|i: int|
        0 <= i < code.len() ==> (#[trigger] code[i] matches Inst::Define { params, .. }
            ==> params@.no_duplicates())
}

/// The temporary index that a label is named after.
pub open spec fn label_index(l: Label) -> usize {
    match l {
        Label::IfTrue(k) => k,
        Label::IfFalse(k) => k,
        Label::IfEnd(k) => k,
        Label::Begin(k) => k,
        Label::WhileTrue(k) => k,
        Label::ForTrue(k) => k,
        Label::End(k) => k,
    }
}

/// Whether instruction `i` places label `l`.
pub open spec fn places(i: Inst, l: Label) -> bool {
    i matches Inst::Label(m) && m == l
}

/// Every label placed in `code` is named after a temporary drawn before
/// `count`, and none is placed twice.
pub open spec fn labels_ok(code: Seq<Inst>, count: nat) -> bool {
    &&& forall|i: int, l: Label| 0 <= i < code.len() && #[trigger] places(code[i], l) ==> label_index(l) < count
    &&& forall|i: int, j: int, l: Label|
        0 <= i < j < code.len() && #[trigger] places(code[i], l) ==> !#[trigger] places(code[j], l)
}

/// The state threaded through one lowering run.
pub struct CodeGenStatus {
    pub name_gen: TmpNameGen,
    pub variables: Variables,
    pub code: Vec<Inst>,
}

impl CodeGenStatus {
    pub open spec fn wf(&self) -> bool {
        &&& self.variables.wf()
        &&& forall|x: Seq<char>| #[trigger]
            self.variables@.contains_key(x) ==> self.variables@[x] < self.name_gen@
        &&& defs_below(self.code@, self.name_gen@)
        &&& defs_unique(self.code@)
        &&& labels_ok(self.code@, self.name_gen@)
    }

    pub fn new() -> (r: Self)
        ensures
            r.wf(),
            r.name_gen@ == 0,
            r.variables@ == Map::<Seq<char>, usize>::empty(),
            r.code@ == Seq::<Inst>::empty(),
    {
        CodeGenStatus { name_gen: TmpNameGen::new(), variables: Variables::new(), code: Vec::new() }
    }

    /// The emitted instructions as lines of text, in order.
    pub fn lines(&self) -> (r: Vec<String>)
        ensures
            r@.len() == self.code@.len(),
            forall|i: int| 0 <= i < r@.len() ==> #[trigger] r@[i]@ == inst_text(self.code@[i]),
    {
        let mut out: Vec<String> = Vec::new();
        let mut i: usize = 0;
        while i < self.code.len()
            invariant
                0 <= i <= self.code@.len(),
                out@.len() == i,
                forall|j: int| 0 <= j < i ==> #[trigger] out@[j]@ == inst_text(self.code@[j]),
            decreases self.code@.len() - i,
        {
            out.push(self.code[i].render());
            i = i + 1;
        }
        out
    }
}

} // verus!
