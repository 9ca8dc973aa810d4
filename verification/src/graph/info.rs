//! What identifies a node of the call graph, and how it is named.

use crate::text::{dec_text, hex_text, join, push_hex, push_signed};
use vstd::prelude::*;
use vstd::string::{StrSliceExecFns, StringExecFns};

verus! {

/// What a `NodeInfo` is, as mathematics.
pub struct NodeInfoView {
    pub name: Seq<char>,
    pub orig_name: Seq<char>,
    pub address: u64,
    pub file: Seq<char>,
    pub start_line: i64,
    pub lineno: i64,
    pub objfile: Seq<char>,
}

/// The attributes of a node. Two nodes with the same attributes are the
/// same node.
#[derive(Debug, PartialEq, Eq)]
pub struct NodeInfo {
    pub name: String,
    pub orig_name: String,
    pub address: u64,
    pub file: String,
    pub start_line: i64,
    pub lineno: i64,
    pub objfile: String,
}

impl NodeInfoView {
    /// The attributes of which none is set.
    pub open spec fn empty() -> NodeInfoView {
        NodeInfoView {
            name: Seq::empty(),
            orig_name: Seq::empty(),
            address: 0,
            file: Seq::empty(),
            start_line: 0,
            lineno: 0,
            objfile: Seq::empty(),
        }
    }
}

impl View for NodeInfo {
    type V = NodeInfoView;

    open spec fn view(&self) -> NodeInfoView {
        NodeInfoView {
            name: self.name@,
            orig_name: self.orig_name@,
            address: self.address,
            file: self.file@,
            start_line: self.start_line,
            lineno: self.lineno,
            objfile: self.objfile@,
        }
    }
}

impl Default for NodeInfo {
    fn default() -> (r: NodeInfo)
        ensures
            r@ == NodeInfoView::empty(),
    {
        NodeInfo {
            name: String::new(),
            orig_name: String::new(),
            address: 0,
            file: String::new(),
            start_line: 0,
            lineno: 0,
            objfile: String::new(),
        }
    }
}

impl Clone for NodeInfo {
    fn clone(&self) -> (r: NodeInfo)
        ensures
            r@ == self@,
    {
        NodeInfo {
            name: self.name.clone(),
            orig_name: self.orig_name.clone(),
            address: self.address,
            file: self.file.clone(),
            start_line: self.start_line,
            lineno: self.lineno,
            objfile: self.objfile.clone(),
        }
    }
}

/// Whether `pat` stands in `path` at place `i`.
pub open spec fn occurs_at(path: Seq<char>, pat: Seq<char>, i: int) -> bool {
    0 <= i && i + pat.len() <= path.len() && path.subrange(i, i + pat.len()) == pat
}

/// What follows the last occurrence of `pat` in `path`; all of `path`
/// where `pat` does not occur.
pub open spec fn basename(path: Seq<char>, pat: Seq<char>) -> Seq<char> {
    if exists|i: int| occurs_at(path, pat, i) {
        let last = choose|i: int|
            occurs_at(path, pat, i) && forall|j: int| occurs_at(path, pat, j) ==> j <= i;
        path.skip(last + pat.len())
    } else {
        path
    }
}

/// Whether `pat` stands in `path` at place `i`.
fn matches_at(path: &str, pat: &str, i: usize, m: usize) -> (r: bool)
    requires
        m == pat@.len(),
        i + m <= path@.len() <= usize::MAX,
    ensures
        r == occurs_at(path@, pat@, i as int),
{
    let mut k: usize = 0;
    while k < m
        invariant
            k <= m,
            m == pat@.len(),
            i + m <= path@.len() <= usize::MAX,
            forall|t: int| 0 <= t < k ==> path@[i + t] == pat@[t],
        decreases m - k,
    {
        if path.get_char(i + k) != pat.get_char(k) {
            assert(path@.subrange(i as int, i + m)[k as int] != pat@[k as int]);
            return false;
        }
        k += 1;
    }
    assert(path@.subrange(i as int, i + m) =~= pat@);
    true
}

/// What follows the last occurrence of `pat` in `path`; all of `path`
/// where `pat` does not occur.
pub fn get_basename(path: &str, pat: &str) -> (r: String)
    ensures
        r@ == basename(path@, pat@),
{
    let n = path.unicode_len();
    let m = pat.unicode_len();
    if m > n {
        assert(forall|i: int| !occurs_at(path@, pat@, i));
        return String::from_str(path);
    }
    let mut i: usize = n - m;
    loop
        invariant
            n == path@.len(),
            m == pat@.len(),
            i + m <= n,
            forall|j: int| i < j ==> !occurs_at(path@, pat@, j),
        decreases i,
    {
        if matches_at(path, pat, i, m) {
            proof {
                let last = choose|x: int|
                    occurs_at(path@, pat@, x) && forall|j: int|
                        occurs_at(path@, pat@, j) ==> j <= x;
                assert(occurs_at(path@, pat@, i as int) && forall|j: int|
                    occurs_at(path@, pat@, j) ==> j <= i);
                assert(last == i);
                assert(path@.subrange(i + m, n as int) =~= path@.skip(i + m));
            }
            return String::from_str(path.substring_char(i + m, n));
        }
        if i == 0 {
            assert(forall|j: int| !occurs_at(path@, pat@, j));
            return String::from_str(path);
        }
        i -= 1;
    }
}

/// The parts of the name of a node: the address in hexadecimal notation
/// where it is not 0, the name where there is one, file and line where
/// the line is not 0, the file where there is one, the name once more
/// where there is one, the base name of the object file in brackets where
/// there is one; where all that gives nothing, the word `<unknown>`.
pub open spec fn name_parts(v: NodeInfoView, separator: Seq<char>) -> Seq<Seq<char>> {
    let a = if v.address != 0 {
        seq![hex_text(v.address as nat)]
    } else {
        Seq::empty()
    };
    let b = if v.name.len() > 0 {
        a.push(v.name)
    } else {
        a
    };
    let c = if v.lineno != 0 {
        b.push(v.file + seq![':'] + dec_text(v.lineno as int))
    } else {
        b
    };
    let d = if v.file.len() > 0 {
        c.push(v.file)
    } else {
        c
    };
    let e = if v.name.len() > 0 {
        d.push(v.name)
    } else {
        d
    };
    let f = if v.objfile.len() > 0 {
        e.push(seq!['['] + basename(v.objfile, separator) + seq![']'])
    } else {
        e
    };
    if f.len() == 0 {
        seq!["<unknown>"@]
    } else {
        f
    }
}

impl NodeInfo {
    /// Whether two infos hold the same values.
    pub fn same(&self, other: &NodeInfo) -> (r: bool)
        ensures
            r == (self@ == other@),
    {
        self.name == other.name && self.orig_name == other.orig_name && self.address
            == other.address && self.file == other.file && self.start_line == other.start_line
            && self.lineno == other.lineno && self.objfile == other.objfile
    }

    /// The parts of the name of the node, with the separator of paths
    /// given.
    pub fn name_components_with(&self, separator: &str) -> (r: Vec<String>)
        ensures
            r.deep_view() == name_parts(self@, separator@),
    {
        let mut name: Vec<String> = Vec::new();
        assert(name.deep_view() =~= Seq::<Seq<char>>::empty());
        if self.address != 0 {
            let mut s = String::new();
            push_hex(&mut s, self.address);
            assert(s@ =~= hex_text(self.address as nat));
            let ghost before = name.deep_view();
            name.push(s);
            assert(name.deep_view() =~= before.push(s@));
        }
        if !self.name.as_str().is_empty() {
            let ghost before = name.deep_view();
            name.push(self.name.clone());
            assert(name.deep_view() =~= before.push(self.name@));
        }
        if self.lineno != 0 {
            let mut s = self.file.clone();
            proof {
                reveal_strlit(":");
            }
            s.append(":");
            push_signed(&mut s, self.lineno);
            assert(s@ =~= self.file@ + seq![':'] + dec_text(self.lineno as int));
            let ghost before = name.deep_view();
            name.push(s);
            assert(name.deep_view() =~= before.push(s@));
        }
        if !self.file.as_str().is_empty() {
            let ghost before = name.deep_view();
            name.push(self.file.clone());
            assert(name.deep_view() =~= before.push(self.file@));
        }
        if !self.name.as_str().is_empty() {
            let ghost before = name.deep_view();
            name.push(self.name.clone());
            assert(name.deep_view() =~= before.push(self.name@));
        }
        if !self.objfile.as_str().is_empty() {
            proof {
                reveal_strlit("[");
                reveal_strlit("]");
            }
            let mut s = String::from_str("[");
            let base = get_basename(self.objfile.as_str(), separator);
            s.append(base.as_str());
            s.append("]");
            assert(s@ =~= seq!['['] + basename(self.objfile@, separator@) + seq![']']);
            let ghost before = name.deep_view();
            name.push(s);
            assert(name.deep_view() =~= before.push(s@));
        }
        if name.len() == 0 {
            let s = String::from_str("<unknown>");
            name.push(s);
            assert(name.deep_view() =~= seq!["<unknown>"@]);
        }
        name
    }

    /// The parts of the name of the node, with `/` as the separator of
    /// paths.
    pub fn name_components(&self) -> (r: Vec<String>)
        ensures
            r.deep_view() == name_parts(self@, "/"@),
    {
        self.name_components_with("/")
    }

    /// The parts of the name, with one space between each two.
    pub fn printable_name(&self) -> (r: String)
        ensures
            r@ == join(name_parts(self@, "/"@), seq![' ']),
    {
        let parts = self.name_components();
        proof {
            reveal_strlit(" ");
            assert(" "@ =~= seq![' ']);
        }
        crate::text::join_texts(&parts, " ")
    }
}

} // verus!
