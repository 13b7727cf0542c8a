//! The closed school enumeration and the total, case-insensitive mapping from
//! free-text labels onto it.

use vstd::prelude::*;

verus! {

/// The closed set of schools an account can belong to; a document in the
/// remote collection stores the ordinal position in this declaration order.
#[derive(Debug, Clone, Copy, PartialEq, Eq, Structural)]
pub enum School {
    Ensimag,
    Phelma,
    E3,
    Papet,
    Gi,
    Polytech,
    Esisar,
    Iae,
    Uga,
    Unknown,
}

impl School {
    /// The ordinal stored in the remote document and in the backup file.
    pub open spec fn ordinal_spec(self) -> int {
        match self {
            School::Ensimag => 0,
            School::Phelma => 1,
            School::E3 => 2,
            School::Papet => 3,
            School::Gi => 4,
            School::Polytech => 5,
            School::Esisar => 6,
            School::Iae => 7,
            School::Uga => 8,
            School::Unknown => 9,
        }
    }

    pub fn ordinal(self) -> (r: u32)
        ensures
            r == self.ordinal_spec(),
    {
        match self {
            School::Ensimag => 0,
            School::Phelma => 1,
            School::E3 => 2,
            School::Papet => 3,
            School::Gi => 4,
            School::Polytech => 5,
            School::Esisar => 6,
            School::Iae => 7,
            School::Uga => 8,
            School::Unknown => 9,
        }
    }

    /// The school whose remote ordinal is `n`; any value outside the closed
    /// set resolves to `Unknown` rather than failing.
    pub open spec fn from_ordinal_spec(n: int) -> School {
        if n == 0 {
            School::Ensimag
        } else if n == 1 {
            School::Phelma
        } else if n == 2 {
            School::E3
        } else if n == 3 {
            School::Papet
        } else if n == 4 {
            School::Gi
        } else if n == 5 {
            School::Polytech
        } else if n == 6 {
            School::Esisar
        } else if n == 7 {
            School::Iae
        } else if n == 8 {
            School::Uga
        } else {
            School::Unknown
        }
    }

    pub fn from_ordinal(n: i64) -> (r: School)
        ensures
            r == School::from_ordinal_spec(n as int),
    {
        if n == 0 {
            School::Ensimag
        } else if n == 1 {
            School::Phelma
        } else if n == 2 {
            School::E3
        } else if n == 3 {
            School::Papet
        } else if n == 4 {
            School::Gi
        } else if n == 5 {
            School::Polytech
        } else if n == 6 {
            School::Esisar
        } else if n == 7 {
            School::Iae
        } else if n == 8 {
            School::Uga
        } else {
            School::Unknown
        }
    }
}

/// ASCII lower-casing of one character; characters outside `A..Z` pass through.
pub open spec fn lower_char_spec(c: char) -> char {
    if 65 <= c as u32 && c as u32 <= 90 {
        (((c as u32) + 32) as u8) as char
    } else {
        c
    }
}

/// ASCII lower-casing of a whole character sequence.
pub open spec fn lower_seq(s: Seq<char>) -> Seq<char> {
    Seq::new(s.len(), |i: int| lower_char_spec(s[i]))
}

fn lower_char(c: char) -> (r: char)
    ensures
        r == lower_char_spec(c),
{
    let u = c as u32;
    if 65 <= u && u <= 90 {
        ((u + 32) as u8) as char
    } else {
        c
    }
}

/// Whether two strings are equal after ASCII lower-casing.
pub(crate) fn eq_fold(a: &str, b: &str) -> (r: bool)
    ensures
        r == (lower_seq(a@) == lower_seq(b@)),
{
    let alen = a.unicode_len();
    let blen = b.unicode_len();
    if alen != blen {
        assert(lower_seq(a@).len() != lower_seq(b@).len());
        return false;
    }
    let mut i: usize = 0;
    while i < alen
        invariant
            i <= alen,
            alen == a@.len(),
            alen == b@.len(),
            forall|j: int| 0 <= j < i ==> lower_seq(a@)[j] == lower_seq(b@)[j],
        decreases alen - i,
    {
        let ca = lower_char(a.get_char(i));
        let cb = lower_char(b.get_char(i));
        if ca != cb {
            assert(lower_seq(a@)[i as int] != lower_seq(b@)[i as int]);
            return false;
        }
        i += 1;
    }
    assert(lower_seq(a@) =~= lower_seq(b@));
    true
}

/// The school named by an already lower-cased label; anything outside the nine
/// known labels is `Unknown`.
pub open spec fn school_of_label(t: Seq<char>) -> School {
    if t == "ensimag"@ {
        School::Ensimag
    } else if t == "phelma"@ {
        School::Phelma
    } else if t == "e3"@ {
        School::E3
    } else if t == "papet"@ {
        School::Papet
    } else if t == "gi"@ {
        School::Gi
    } else if t == "polytech"@ {
        School::Polytech
    } else if t == "esisar"@ {
        School::Esisar
    } else if t == "iae"@ {
        School::Iae
    } else if t == "uga"@ {
        School::Uga
    } else {
        School::Unknown
    }
}

/// What `enumerate` returns on any raw cell value: the label is lower-cased
/// and matched against the nine known labels.
pub open spec fn enumerate_spec(s: Seq<char>) -> School {
    school_of_label(lower_seq(s))
}

proof fn lemma_label_lits_are_lower()
    ensures
        lower_seq("ensimag"@) == "ensimag"@,
        lower_seq("phelma"@) == "phelma"@,
        lower_seq("e3"@) == "e3"@,
        lower_seq("papet"@) == "papet"@,
        lower_seq("gi"@) == "gi"@,
        lower_seq("polytech"@) == "polytech"@,
        lower_seq("esisar"@) == "esisar"@,
        lower_seq("iae"@) == "iae"@,
        lower_seq("uga"@) == "uga"@,
{
    reveal_strlit("ensimag");
    reveal_strlit("phelma");
    reveal_strlit("e3");
    reveal_strlit("papet");
    reveal_strlit("gi");
    reveal_strlit("polytech");
    reveal_strlit("esisar");
    reveal_strlit("iae");
    reveal_strlit("uga");
    assert(lower_seq("ensimag"@) =~= "ensimag"@);
    assert(lower_seq("phelma"@) =~= "phelma"@);
    assert(lower_seq("e3"@) =~= "e3"@);
    assert(lower_seq("papet"@) =~= "papet"@);
    assert(lower_seq("gi"@) =~= "gi"@);
    assert(lower_seq("polytech"@) =~= "polytech"@);
    assert(lower_seq("esisar"@) =~= "esisar"@);
    assert(lower_seq("iae"@) =~= "iae"@);
    assert(lower_seq("uga"@) =~= "uga"@);
}

/// Maps a raw cell value onto the closed school set: lower-case the label and
/// match it against the nine known names; everything else is `Unknown`.
/// Total over all strings: it never fails.
pub fn enumerate(s: &str) -> (r: School)
    ensures
        r == enumerate_spec(s@),
{
    proof {
        lemma_label_lits_are_lower();
    }
    if eq_fold(s, "ensimag") {
        School::Ensimag
    } else if eq_fold(s, "phelma") {
        School::Phelma
    } else if eq_fold(s, "e3") {
        School::E3
    } else if eq_fold(s, "papet") {
        School::Papet
    } else if eq_fold(s, "gi") {
        School::Gi
    } else if eq_fold(s, "polytech") {
        School::Polytech
    } else if eq_fold(s, "esisar") {
        School::Esisar
    } else if eq_fold(s, "iae") {
        School::Iae
    } else if eq_fold(s, "uga") {
        School::Uga
    } else {
        School::Unknown
    }
}

/// School mapping is case-insensitive: two labels that agree after ASCII
/// lower-casing map to the same school.
pub proof fn lemma_enumerate_case_insensitive(a: Seq<char>, b: Seq<char>)
    requires
        lower_seq(a) == lower_seq(b),
    ensures
        enumerate_spec(a) == enumerate_spec(b),
{
}

/// School mapping is total, and every label outside the nine known ones maps
/// to `Unknown`.
pub proof fn lemma_enumerate_unknown(s: Seq<char>)
    requires
        lower_seq(s) != "ensimag"@,
        lower_seq(s) != "phelma"@,
        lower_seq(s) != "e3"@,
        lower_seq(s) != "papet"@,
        lower_seq(s) != "gi"@,
        lower_seq(s) != "polytech"@,
        lower_seq(s) != "esisar"@,
        lower_seq(s) != "iae"@,
        lower_seq(s) != "uga"@,
    ensures
        enumerate_spec(s) == School::Unknown,
{
}

} // verus!
