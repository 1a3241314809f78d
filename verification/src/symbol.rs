//! Symbol-table entries.

use vstd::prelude::*;
use crate::types::Type;
use crate::checker_spec::SymbolV;

verus! {

/// A symbol-table entry: a declared name with its type and its place.
#[derive(Debug)]
pub struct Symbol {
    pub id: String,
    pub ty: Type,
    pub is_fn: bool,
    pub is_visible: bool,
    pub is_reassignable: bool,
    pub is_global: bool,
    pub mangled_params: Vec<String>,
    pub stack_offset: i32,
}

/// The views of a sequence of strings.
pub open spec fn strs_view(v: Seq<String>) -> Seq<Seq<char>> {
    v.map_values(|s: String| s@)
}

impl View for Symbol {
    type V = SymbolV;

    open spec fn view(&self) -> SymbolV {
        SymbolV {
            id: self.id@,
            ty: self.ty,
            is_fn: self.is_fn,
            is_visible: self.is_visible,
            is_reassignable: self.is_reassignable,
            is_global: self.is_global,
            mangled_params: strs_view(self.mangled_params@),
            stack_offset: self.stack_offset as int,
        }
    }
}

/// A copy of the strings `v`.
pub fn clone_strs(v: &Vec<String>) -> (res: Vec<String>)
    ensures
        strs_view(res@) == strs_view(v@),
{
    let mut res: Vec<String> = Vec::new();
    let mut i: usize = 0;
    while i < v.len()
        invariant
            i <= v.len(),
            res.len() == i,
            forall|j: int| 0 <= j < i ==> (#[trigger] res@[j])@ == v@[j]@,
        decreases v.len() - i,
    {
        res.push(v[i].clone());
        i = i + 1;
    }
    assert(strs_view(res@) =~= strs_view(v@));
    res
}

impl Symbol {
    /// A copy of the entry.
    pub fn copy(&self) -> (res: Symbol)
        ensures
            res@ == self@,
    {
        Symbol {
            id: self.id.clone(),
            ty: self.ty.clone(),
            is_fn: self.is_fn,
            is_visible: self.is_visible,
            is_reassignable: self.is_reassignable,
            is_global: self.is_global,
            mangled_params: clone_strs(&self.mangled_params),
            stack_offset: self.stack_offset,
        }
    }
}

} // verus!
