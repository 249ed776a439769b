//! Symbol namespaces: the fixed predefined table, the label table built by
//! the label pass, and the variable table grown during encoding.

use vstd::prelude::*;

verus! {

/// RAM address handed to the first variable; later variables follow one by
/// one in order of first appearance.
pub const VARIABLES_RAM_OFFSET: u16 = 16;

/// Value of the fixed 23-entry predefined symbol table at `s`: the virtual
/// registers `R0`..`R15` at 0..15, the named pointers `SP`, `LCL`, `ARG`,
/// `THIS`, `THAT` at 0..4, `SCREEN` at 0x4000 and `KBD` at 0x6000.
pub open spec fn spec_predefined(s: Seq<u8>) -> Option<u16> {
    if s.len() == 2 {
        if s[0] == 'S' as u8 && s[1] == 'P' as u8 {
            Some(0u16)
        } else if s[0] == 'R' as u8 && '0' as u8 <= s[1] && s[1] <= '9' as u8 {
            Some((s[1] - '0' as u8) as u16)
        } else {
            None
        }
    } else if s.len() == 3 {
        if s[0] == 'L' as u8 && s[1] == 'C' as u8 && s[2] == 'L' as u8 {
            Some(1u16)
        } else if s[0] == 'A' as u8 && s[1] == 'R' as u8 && s[2] == 'G' as u8 {
            Some(2u16)
        } else if s[0] == 'K' as u8 && s[1] == 'B' as u8 && s[2] == 'D' as u8 {
            Some(0x6000u16)
        } else if s[0] == 'R' as u8 && s[1] == '1' as u8 && '0' as u8 <= s[2] && s[2] <= '5' as u8 {
            Some((10 + (s[2] - '0' as u8)) as u16)
        } else {
            None
        }
    } else if s.len() == 4 {
        if s[0] == 'T' as u8 && s[1] == 'H' as u8 && s[2] == 'I' as u8 && s[3] == 'S' as u8 {
            Some(3u16)
        } else if s[0] == 'T' as u8 && s[1] == 'H' as u8 && s[2] == 'A' as u8 && s[3] == 'T' as u8 {
            Some(4u16)
        } else {
            None
        }
    } else if s.len() == 6 {
        if s[0] == 'S' as u8 && s[1] == 'C' as u8 && s[2] == 'R' as u8 && s[3] == 'E' as u8 && s[4] == 'E' as u8
            && s[5] == 'N' as u8 {
            Some(0x4000u16)
        } else {
            None
        }
    } else {
        None
    }
}

/// Looks a symbol up in the predefined table.
pub fn predefined(s: &[u8]) -> (r: Option<u16>)
    ensures
        r == spec_predefined(s@),
{
    if s.len() == 2 {
        if s[0] == 'S' as u8 && s[1] == 'P' as u8 {
            Some(0u16)
        } else if s[0] == 'R' as u8 && '0' as u8 <= s[1] && s[1] <= '9' as u8 {
            Some((s[1] - '0' as u8) as u16)
        } else {
            None
        }
    } else if s.len() == 3 {
        if s[0] == 'L' as u8 && s[1] == 'C' as u8 && s[2] == 'L' as u8 {
            Some(1u16)
        } else if s[0] == 'A' as u8 && s[1] == 'R' as u8 && s[2] == 'G' as u8 {
            Some(2u16)
        } else if s[0] == 'K' as u8 && s[1] == 'B' as u8 && s[2] == 'D' as u8 {
            Some(0x6000u16)
        } else if s[0] == 'R' as u8 && s[1] == '1' as u8 && '0' as u8 <= s[2] && s[2] <= '5' as u8 {
            Some((10 + (s[2] - '0' as u8)) as u16)
        } else {
            None
        }
    } else if s.len() == 4 {
        if s[0] == 'T' as u8 && s[1] == 'H' as u8 && s[2] == 'I' as u8 && s[3] == 'S' as u8 {
            Some(3u16)
        } else if s[0] == 'T' as u8 && s[1] == 'H' as u8 && s[2] == 'A' as u8 && s[3] == 'T' as u8 {
            Some(4u16)
        } else {
            None
        }
    } else if s.len() == 6 {
        if s[0] == 'S' as u8 && s[1] == 'C' as u8 && s[2] == 'R' as u8 && s[3] == 'E' as u8 && s[4] == 'E' as u8
            && s[5] == 'N' as u8 {
            Some(0x4000u16)
        } else {
            None
        }
    } else {
        None
    }
}

/// Compares two byte strings for equality.
pub fn bytes_eq(a: &[u8], b: &[u8]) -> (r: bool)
    ensures
        r <==> a@ == b@,
{
    if a.len() != b.len() {
        return false;
    }
    let mut i: usize = 0;
    while i < a.len()
        invariant
            a@.len() == b@.len(),
            i <= a@.len(),
            forall|j: int| 0 <= j < i ==> a@[j] == b@[j],
        decreases a@.len() - i,
    {
        if a[i] != b[i] {
            return false;
        }
        i = i + 1;
    }
    proof {
        assert(a@ =~= b@);
    }
    true
}

/// The binding a name-to-address table gives to `k`: the value of the
/// latest entry whose name is `k`, so a later binding shadows an earlier one.
pub open spec fn tbl_lookup(t: Seq<(Seq<u8>, u16)>, k: Seq<u8>) -> Option<u16>
    decreases t.len(),
{
    if t.len() == 0 {
        None
    } else if t.last().0 == k {
        Some(t.last().1)
    } else {
        tbl_lookup(t.drop_last(), k)
    }
}

/// The label table of one translation run, mapping each declared label name
/// to the program-counter value of the next emitted word.
pub struct Labels {
    entries: Vec<(Vec<u8>, u16)>,
}

impl View for Labels {
    type V = Seq<(Seq<u8>, u16)>;

    closed spec fn view(&self) -> Seq<(Seq<u8>, u16)> {
        self.entries@.map_values(|p: (Vec<u8>, u16)| (p.0@, p.1))
    }
}

impl Labels {
    /// An empty label table.
    pub fn new() -> (r: Labels)
        ensures
            r@ == Seq::<(Seq<u8>, u16)>::empty(),
    {
        let r = Labels { entries: Vec::new() };
        proof {
            assert(r@ =~= Seq::<(Seq<u8>, u16)>::empty());
        }
        r
    }

    /// Binds `name` to `address`; a duplicate declaration shadows the
    /// earlier binding.
    pub fn insert(&mut self, name: Vec<u8>, address: u16)
        ensures
            final(self)@ == old(self)@.push((name@, address)),
    {
        let ghost prev = self@;
        let ghost n = name@;
        self.entries.push((name, address));
        proof {
            assert(self@ =~= prev.push((n, address)));
        }
    }

    /// Looks a label name up.
    pub fn get(&self, name: &[u8]) -> (r: Option<u16>)
        ensures
            r == tbl_lookup(self@, name@),
    {
        tbl_get(&self.entries, Ghost(self@), name)
    }
}

/// The variable table of one translation run, mapping each variable name to
/// the RAM address assigned at its first appearance.
pub struct Variables {
    entries: Vec<(Vec<u8>, u16)>,
}

impl View for Variables {
    type V = Seq<(Seq<u8>, u16)>;

    closed spec fn view(&self) -> Seq<(Seq<u8>, u16)> {
        self.entries@.map_values(|p: (Vec<u8>, u16)| (p.0@, p.1))
    }
}

impl Variables {
    /// An empty variable table.
    pub fn new() -> (r: Variables)
        ensures
            r@ == Seq::<(Seq<u8>, u16)>::empty(),
    {
        let r = Variables { entries: Vec::new() };
        proof {
            assert(r@ =~= Seq::<(Seq<u8>, u16)>::empty());
        }
        r
    }

    /// Records the address assigned to a newly seen variable.
    pub fn insert(&mut self, name: Vec<u8>, address: u16)
        ensures
            final(self)@ == old(self)@.push((name@, address)),
    {
        let ghost prev = self@;
        let ghost n = name@;
        self.entries.push((name, address));
        proof {
            assert(self@ =~= prev.push((n, address)));
        }
    }

    /// Looks a variable name up.
    pub fn get(&self, name: &[u8]) -> (r: Option<u16>)
        ensures
            r == tbl_lookup(self@, name@),
    {
        tbl_get(&self.entries, Ghost(self@), name)
    }

    /// How many variables have been assigned an address so far.
    pub fn len(&self) -> (n: usize)
        ensures
            n == self@.len(),
    {
        self.entries.len()
    }
}

/// Scans `entries` for the latest entry named `name`.
fn tbl_get(entries: &Vec<(Vec<u8>, u16)>, view: Ghost<Seq<(Seq<u8>, u16)>>, name: &[u8]) -> (r:
    Option<u16>)
    requires
        view@ == entries@.map_values(|p: (Vec<u8>, u16)| (p.0@, p.1)),
    ensures
        r == tbl_lookup(view@, name@),
{
    let mut result: Option<u16> = None;
    let mut i: usize = 0;
    proof {
        assert(view@.take(0) =~= Seq::<(Seq<u8>, u16)>::empty());
    }
    while i < entries.len()
        invariant
            view@ == entries@.map_values(|p: (Vec<u8>, u16)| (p.0@, p.1)),
            i <= entries@.len(),
            result == tbl_lookup(view@.take(i as int), name@),
        decreases entries@.len() - i,
    {
        if bytes_eq(entries[i].0.as_slice(), name) {
            result = Some(entries[i].1);
        }
        i = i + 1;
        proof {
            assert(view@.take(i as int).drop_last() =~= view@.take(i - 1));
        }
    }
    proof {
        assert(view@.take(entries@.len() as int) =~= view@);
    }
    result
}

} // verus!
