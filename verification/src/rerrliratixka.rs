//! The syllable codec: parses a romanized Pekzep token into a structured
//! syllable (onset, vowel nucleus, coda, tone) and serializes it back, both to
//! the plain romanization and to the alternate "rerrliratixka" spelling.

use crate::text;
use vstd::prelude::*;

verus! {

#[derive(PartialEq, Eq, Structural, Debug, Clone, Copy, Hash)]
pub enum Tone {
    No,
    First,
    Second,
}

#[derive(PartialEq, Eq, Structural, Debug, Clone, Copy, Hash)]
pub enum Onset {
    P,
    B,
    M,
    C,
    S,
    X,
    Z,
    T,
    D,
    N,
    L,
    K,
    G,
    H,
    Zero,
}

#[derive(PartialEq, Eq, Structural, Debug, Clone, Copy, Hash)]
pub enum Vowel {
    A,
    IA,
    UA,
    AI,
    UAI,
    AU,
    IAU,
    UAU,
    E,
    IE,
    UE,
    EI,
    IEI,
    O,
    IO,
    UO,
    I,
    UI,
    U,
    Y,
}

#[derive(PartialEq, Eq, Structural, Debug, Clone, Copy, Hash)]
pub enum Coda {
    P,
    T,
    K,
    M,
    N,
    Zero,
}

// ------------------------------------------------------------------
// Serialization, described at the specification level
// ------------------------------------------------------------------

pub open spec fn onset_chars(o: Onset) -> Seq<char> {
    match o {
        Onset::P => seq!['p'],
        Onset::B => seq!['b'],
        Onset::M => seq!['m'],
        Onset::C => seq!['c'],
        Onset::S => seq!['s'],
        Onset::X => seq!['x'],
        Onset::Z => seq!['z'],
        Onset::T => seq!['t'],
        Onset::D => seq!['d'],
        Onset::N => seq!['n'],
        Onset::L => seq!['l'],
        Onset::K => seq!['k'],
        Onset::G => seq!['g'],
        Onset::H => seq!['h'],
        Onset::Zero => seq![],
    }
}

pub open spec fn vowel_chars(v: Vowel) -> Seq<char> {
    match v {
        Vowel::A => seq!['a'],
        Vowel::IA => seq!['i', 'a'],
        Vowel::UA => seq!['u', 'a'],
        Vowel::AI => seq!['a', 'i'],
        Vowel::UAI => seq!['u', 'a', 'i'],
        Vowel::AU => seq!['a', 'u'],
        Vowel::IAU => seq!['i', 'a', 'u'],
        Vowel::UAU => seq!['u', 'a', 'u'],
        Vowel::E => seq!['e'],
        Vowel::IE => seq!['i', 'e'],
        Vowel::UE => seq!['u', 'e'],
        Vowel::EI => seq!['e', 'i'],
        Vowel::IEI => seq!['i', 'e', 'i'],
        Vowel::O => seq!['o'],
        Vowel::IO => seq!['i', 'o'],
        Vowel::UO => seq!['u', 'o'],
        Vowel::I => seq!['i'],
        Vowel::UI => seq!['u', 'i'],
        Vowel::U => seq!['u'],
        Vowel::Y => seq!['y'],
    }
}

/// The first-tone spelling of each vowel in the alternate romanization, which
/// marks the tone by an `r` inserted into the nucleus.
pub open spec fn vowel_first_tone_chars(v: Vowel) -> Seq<char> {
    match v {
        Vowel::A => seq!['a', 'r'],
        Vowel::IA => seq!['i', 'a', 'r'],
        Vowel::UA => seq!['u', 'a', 'r'],
        Vowel::AI => seq!['a', 'r', 'i'],
        Vowel::UAI => seq!['u', 'a', 'r', 'i'],
        Vowel::AU => seq!['a', 'r', 'u'],
        Vowel::IAU => seq!['i', 'a', 'r', 'u'],
        Vowel::UAU => seq!['u', 'a', 'r', 'u'],
        Vowel::E => seq!['e', 'r'],
        Vowel::IE => seq!['i', 'e', 'r'],
        Vowel::UE => seq!['u', 'e', 'r'],
        Vowel::EI => seq!['e', 'r', 'i'],
        Vowel::IEI => seq!['i', 'e', 'r', 'i'],
        Vowel::O => seq!['o', 'r'],
        Vowel::IO => seq!['i', 'o', 'r'],
        Vowel::UO => seq!['u', 'o', 'r'],
        Vowel::I => seq!['i', 'r'],
        Vowel::UI => seq!['u', 'i', 'r'],
        Vowel::U => seq!['u', 'r'],
        Vowel::Y => seq!['y', 'r'],
    }
}

pub open spec fn coda_chars(c: Coda) -> Seq<char> {
    match c {
        Coda::P => seq!['p'],
        Coda::T => seq!['t'],
        Coda::K => seq!['k'],
        Coda::M => seq!['m'],
        Coda::N => seq!['n'],
        Coda::Zero => seq![],
    }
}

pub open spec fn tone_chars(t: Tone) -> Seq<char> {
    match t {
        Tone::No => seq![],
        Tone::First => seq!['1'],
        Tone::Second => seq!['2'],
    }
}

/// The plain romanized spelling of a syllable.
pub open spec fn latin_chars(s: PekZepSyllable) -> Seq<char> {
    onset_chars(s.onset) + vowel_chars(s.vowel) + coda_chars(s.coda) + tone_chars(s.tone)
}

/// The alternate "rerrliratixka" spelling: second tone doubles as a leading
/// `r`, first tone is folded into the vowel nucleus.
pub open spec fn rerrliratixka_chars(s: PekZepSyllable) -> Seq<char> {
    onset_chars(s.onset) + (if s.tone == Tone::Second {
        seq!['r']
    } else {
        Seq::empty()
    }) + (if s.tone == Tone::First {
        vowel_first_tone_chars(s.vowel)
    } else {
        vowel_chars(s.vowel)
    }) + coda_chars(s.coda)
}

// ------------------------------------------------------------------
// Parsing, described at the specification level
// ------------------------------------------------------------------

pub open spec fn tone_of_char(c: char) -> Tone {
    if c == '1' {
        Tone::First
    } else if c == '2' {
        Tone::Second
    } else {
        Tone::No
    }
}

pub open spec fn onset_of_char(c: char) -> Option<Onset> {
    if c == 'p' {
        Some(Onset::P)
    } else if c == 'b' {
        Some(Onset::B)
    } else if c == 'm' {
        Some(Onset::M)
    } else if c == 'c' {
        Some(Onset::C)
    } else if c == 's' {
        Some(Onset::S)
    } else if c == 'x' {
        Some(Onset::X)
    } else if c == 'z' {
        Some(Onset::Z)
    } else if c == 't' {
        Some(Onset::T)
    } else if c == 'd' {
        Some(Onset::D)
    } else if c == 'n' {
        Some(Onset::N)
    } else if c == 'l' {
        Some(Onset::L)
    } else if c == 'k' {
        Some(Onset::K)
    } else if c == 'g' {
        Some(Onset::G)
    } else if c == 'h' {
        Some(Onset::H)
    } else if c == 'a' || c == 'e' || c == 'i' || c == 'o' || c == 'u' || c == 'y' {
        Some(Onset::Zero)
    } else {
        None
    }
}

pub open spec fn coda_of_char(c: char) -> Coda {
    if c == 'p' {
        Coda::P
    } else if c == 't' {
        Coda::T
    } else if c == 'k' {
        Coda::K
    } else if c == 'm' {
        Coda::M
    } else if c == 'n' {
        Coda::N
    } else {
        Coda::Zero
    }
}

pub open spec fn vowel_of_chars(v: Seq<char>) -> Option<Vowel> {
    if v.len() == 1 {
        if v[0] == 'a' {
            Some(Vowel::A)
        } else if v[0] == 'e' {
            Some(Vowel::E)
        } else if v[0] == 'o' {
            Some(Vowel::O)
        } else if v[0] == 'i' {
            Some(Vowel::I)
        } else if v[0] == 'u' {
            Some(Vowel::U)
        } else if v[0] == 'y' {
            Some(Vowel::Y)
        } else {
            None
        }
    } else if v.len() == 2 {
        if v[0] == 'i' && v[1] == 'a' {
            Some(Vowel::IA)
        } else if v[0] == 'u' && v[1] == 'a' {
            Some(Vowel::UA)
        } else if v[0] == 'a' && v[1] == 'i' {
            Some(Vowel::AI)
        } else if v[0] == 'a' && v[1] == 'u' {
            Some(Vowel::AU)
        } else if v[0] == 'i' && v[1] == 'e' {
            Some(Vowel::IE)
        } else if v[0] == 'u' && v[1] == 'e' {
            Some(Vowel::UE)
        } else if v[0] == 'e' && v[1] == 'i' {
            Some(Vowel::EI)
        } else if v[0] == 'i' && v[1] == 'o' {
            Some(Vowel::IO)
        } else if v[0] == 'u' && v[1] == 'o' {
            Some(Vowel::UO)
        } else if v[0] == 'u' && v[1] == 'i' {
            Some(Vowel::UI)
        } else {
            None
        }
    } else if v.len() == 3 {
        if v[0] == 'u' && v[1] == 'a' && v[2] == 'i' {
            Some(Vowel::UAI)
        } else if v[0] == 'i' && v[1] == 'a' && v[2] == 'u' {
            Some(Vowel::IAU)
        } else if v[0] == 'u' && v[1] == 'a' && v[2] == 'u' {
            Some(Vowel::UAU)
        } else if v[0] == 'i' && v[1] == 'e' && v[2] == 'i' {
            Some(Vowel::IEI)
        } else {
            None
        }
    } else {
        None
    }
}

/// What parsing a romanized token yields: an optional trailing tone digit, a
/// leading consonant onset (or none before a vowel letter), a trailing coda
/// consonant (or none), and a vowel nucleus from the closed table of
/// spellings. `None` on any mismatch.
pub open spec fn parse_spec(t: Seq<char>) -> Option<PekZepSyllable> {
    if t.len() == 0 {
        None
    } else {
        let tone = tone_of_char(t.last());
        match onset_of_char(t[0]) {
            None => None,
            Some(onset) => {
                let lo: int = if onset == Onset::Zero {
                    0
                } else {
                    1
                };
                let hi: int = t.len() - (if tone == Tone::No {
                    0int
                } else {
                    1int
                });
                if hi <= lo {
                    None
                } else {
                    let rem = t.subrange(lo, hi);
                    let coda = coda_of_char(rem.last());
                    let vow = rem.take(rem.len() - (if coda == Coda::Zero {
                        0int
                    } else {
                        1int
                    }));
                    match vowel_of_chars(vow) {
                        None => None,
                        Some(vowel) => Some(PekZepSyllable { onset, vowel, coda, tone }),
                    }
                }
            },
        }
    }
}

// ------------------------------------------------------------------
// The syllable itself
// ------------------------------------------------------------------

#[derive(PartialEq, Eq, Structural, Debug, Clone, Copy, Hash)]
pub struct PekZepSyllable {
    pub onset: Onset,
    pub vowel: Vowel,
    pub coda: Coda,
    pub tone: Tone,
}

impl Coda {
    /// The romanized spelling of the coda.
    pub fn to_str(self) -> (r: &'static str)
        ensures
            r@ == coda_chars(self),
    {
        match self {
            Coda::P => {
                proof {
                    reveal_strlit("p");
                    assert("p"@ =~= seq!['p']);
                }
                "p"
            },
            Coda::T => {
                proof {
                    reveal_strlit("t");
                    assert("t"@ =~= seq!['t']);
                }
                "t"
            },
            Coda::K => {
                proof {
                    reveal_strlit("k");
                    assert("k"@ =~= seq!['k']);
                }
                "k"
            },
            Coda::M => {
                proof {
                    reveal_strlit("m");
                    assert("m"@ =~= seq!['m']);
                }
                "m"
            },
            Coda::N => {
                proof {
                    reveal_strlit("n");
                    assert("n"@ =~= seq!['n']);
                }
                "n"
            },
            Coda::Zero => {
                proof {
                    reveal_strlit("");
                    assert(""@ =~= Seq::<char>::empty());
                }
                ""
            },
        }
    }
}

impl Onset {
    /// The romanized spelling of the onset.
    pub fn to_str(self) -> (r: &'static str)
        ensures
            r@ == onset_chars(self),
    {
        match self {
            Onset::P => {
                proof {
                    reveal_strlit("p");
                    assert("p"@ =~= seq!['p']);
                }
                "p"
            },
            Onset::T => {
                proof {
                    reveal_strlit("t");
                    assert("t"@ =~= seq!['t']);
                }
                "t"
            },
            Onset::K => {
                proof {
                    reveal_strlit("k");
                    assert("k"@ =~= seq!['k']);
                }
                "k"
            },
            Onset::M => {
                proof {
                    reveal_strlit("m");
                    assert("m"@ =~= seq!['m']);
                }
                "m"
            },
            Onset::N => {
                proof {
                    reveal_strlit("n");
                    assert("n"@ =~= seq!['n']);
                }
                "n"
            },
            Onset::Zero => {
                proof {
                    reveal_strlit("");
                    assert(""@ =~= Seq::<char>::empty());
                }
                ""
            },
            Onset::B => {
                proof {
                    reveal_strlit("b");
                    assert("b"@ =~= seq!['b']);
                }
                "b"
            },
            Onset::G => {
                proof {
                    reveal_strlit("g");
                    assert("g"@ =~= seq!['g']);
                }
                "g"
            },
            Onset::C => {
                proof {
                    reveal_strlit("c");
                    assert("c"@ =~= seq!['c']);
                }
                "c"
            },
            Onset::S => {
                proof {
                    reveal_strlit("s");
                    assert("s"@ =~= seq!['s']);
                }
                "s"
            },
            Onset::X => {
                proof {
                    reveal_strlit("x");
                    assert("x"@ =~= seq!['x']);
                }
                "x"
            },
            Onset::H => {
                proof {
                    reveal_strlit("h");
                    assert("h"@ =~= seq!['h']);
                }
                "h"
            },
            Onset::Z => {
                proof {
                    reveal_strlit("z");
                    assert("z"@ =~= seq!['z']);
                }
                "z"
            },
            Onset::L => {
                proof {
                    reveal_strlit("l");
                    assert("l"@ =~= seq!['l']);
                }
                "l"
            },
            Onset::D => {
                proof {
                    reveal_strlit("d");
                    assert("d"@ =~= seq!['d']);
                }
                "d"
            },
        }
    }
}

impl Vowel {
    /// The romanized spelling of the vowel nucleus.
    pub fn to_str(self) -> (r: &'static str)
        ensures
            r@ == vowel_chars(self),
    {
        match self {
            Vowel::A => {
                proof {
                    reveal_strlit("a");
                    assert("a"@ =~= seq!['a']);
                }
                "a"
            },
            Vowel::IA => {
                proof {
                    reveal_strlit("ia");
                    assert("ia"@ =~= seq!['i', 'a']);
                }
                "ia"
            },
            Vowel::UA => {
                proof {
                    reveal_strlit("ua");
                    assert("ua"@ =~= seq!['u', 'a']);
                }
                "ua"
            },
            Vowel::AI => {
                proof {
                    reveal_strlit("ai");
                    assert("ai"@ =~= seq!['a', 'i']);
                }
                "ai"
            },
            Vowel::UAI => {
                proof {
                    reveal_strlit("uai");
                    assert("uai"@ =~= seq!['u', 'a', 'i']);
                }
                "uai"
            },
            Vowel::AU => {
                proof {
                    reveal_strlit("au");
                    assert("au"@ =~= seq!['a', 'u']);
                }
                "au"
            },
            Vowel::IAU => {
                proof {
                    reveal_strlit("iau");
                    assert("iau"@ =~= seq!['i', 'a', 'u']);
                }
                "iau"
            },
            Vowel::UAU => {
                proof {
                    reveal_strlit("uau");
                    assert("uau"@ =~= seq!['u', 'a', 'u']);
                }
                "uau"
            },
            Vowel::E => {
                proof {
                    reveal_strlit("e");
                    assert("e"@ =~= seq!['e']);
                }
                "e"
            },
            Vowel::IE => {
                proof {
                    reveal_strlit("ie");
                    assert("ie"@ =~= seq!['i', 'e']);
                }
                "ie"
            },
            Vowel::UE => {
                proof {
                    reveal_strlit("ue");
                    assert("ue"@ =~= seq!['u', 'e']);
                }
                "ue"
            },
            Vowel::EI => {
                proof {
                    reveal_strlit("ei");
                    assert("ei"@ =~= seq!['e', 'i']);
                }
                "ei"
            },
            Vowel::IEI => {
                proof {
                    reveal_strlit("iei");
                    assert("iei"@ =~= seq!['i', 'e', 'i']);
                }
                "iei"
            },
            Vowel::O => {
                proof {
                    reveal_strlit("o");
                    assert("o"@ =~= seq!['o']);
                }
                "o"
            },
            Vowel::IO => {
                proof {
                    reveal_strlit("io");
                    assert("io"@ =~= seq!['i', 'o']);
                }
                "io"
            },
            Vowel::UO => {
                proof {
                    reveal_strlit("uo");
                    assert("uo"@ =~= seq!['u', 'o']);
                }
                "uo"
            },
            Vowel::I => {
                proof {
                    reveal_strlit("i");
                    assert("i"@ =~= seq!['i']);
                }
                "i"
            },
            Vowel::UI => {
                proof {
                    reveal_strlit("ui");
                    assert("ui"@ =~= seq!['u', 'i']);
                }
                "ui"
            },
            Vowel::U => {
                proof {
                    reveal_strlit("u");
                    assert("u"@ =~= seq!['u']);
                }
                "u"
            },
            Vowel::Y => {
                proof {
                    reveal_strlit("y");
                    assert("y"@ =~= seq!['y']);
                }
                "y"
            },
        }
    }

    /// The first-tone spelling of the vowel in the alternate romanization.
    pub fn first_tone_rerrliratixka(self) -> (r: &'static str)
        ensures
            r@ == vowel_first_tone_chars(self),
    {
        match self {
            Vowel::A => {
                proof {
                    reveal_strlit("ar");
                    assert("ar"@ =~= seq!['a', 'r']);
                }
                "ar"
            },
            Vowel::IA => {
                proof {
                    reveal_strlit("iar");
                    assert("iar"@ =~= seq!['i', 'a', 'r']);
                }
                "iar"
            },
            Vowel::UA => {
                proof {
                    reveal_strlit("uar");
                    assert("uar"@ =~= seq!['u', 'a', 'r']);
                }
                "uar"
            },
            Vowel::AI => {
                proof {
                    reveal_strlit("ari");
                    assert("ari"@ =~= seq!['a', 'r', 'i']);
                }
                "ari"
            },
            Vowel::UAI => {
                proof {
                    reveal_strlit("uari");
                    assert("uari"@ =~= seq!['u', 'a', 'r', 'i']);
                }
                "uari"
            },
            Vowel::AU => {
                proof {
                    reveal_strlit("aru");
                    assert("aru"@ =~= seq!['a', 'r', 'u']);
                }
                "aru"
            },
            Vowel::IAU => {
                proof {
                    reveal_strlit("iaru");
                    assert("iaru"@ =~= seq!['i', 'a', 'r', 'u']);
                }
                "iaru"
            },
            Vowel::UAU => {
                proof {
                    reveal_strlit("uaru");
                    assert("uaru"@ =~= seq!['u', 'a', 'r', 'u']);
                }
                "uaru"
            },
            Vowel::E => {
                proof {
                    reveal_strlit("er");
                    assert("er"@ =~= seq!['e', 'r']);
                }
                "er"
            },
            Vowel::IE => {
                proof {
                    reveal_strlit("ier");
                    assert("ier"@ =~= seq!['i', 'e', 'r']);
                }
                "ier"
            },
            Vowel::UE => {
                proof {
                    reveal_strlit("uer");
                    assert("uer"@ =~= seq!['u', 'e', 'r']);
                }
                "uer"
            },
            Vowel::EI => {
                proof {
                    reveal_strlit("eri");
                    assert("eri"@ =~= seq!['e', 'r', 'i']);
                }
                "eri"
            },
            Vowel::IEI => {
                proof {
                    reveal_strlit("ieri");
                    assert("ieri"@ =~= seq!['i', 'e', 'r', 'i']);
                }
                "ieri"
            },
            Vowel::O => {
                proof {
                    reveal_strlit("or");
                    assert("or"@ =~= seq!['o', 'r']);
                }
                "or"
            },
            Vowel::IO => {
                proof {
                    reveal_strlit("ior");
                    assert("ior"@ =~= seq!['i', 'o', 'r']);
                }
                "ior"
            },
            Vowel::UO => {
                proof {
                    reveal_strlit("uor");
                    assert("uor"@ =~= seq!['u', 'o', 'r']);
                }
                "uor"
            },
            Vowel::I => {
                proof {
                    reveal_strlit("ir");
                    assert("ir"@ =~= seq!['i', 'r']);
                }
                "ir"
            },
            Vowel::UI => {
                proof {
                    reveal_strlit("uir");
                    assert("uir"@ =~= seq!['u', 'i', 'r']);
                }
                "uir"
            },
            Vowel::U => {
                proof {
                    reveal_strlit("ur");
                    assert("ur"@ =~= seq!['u', 'r']);
                }
                "ur"
            },
            Vowel::Y => {
                proof {
                    reveal_strlit("yr");
                    assert("yr"@ =~= seq!['y', 'r']);
                }
                "yr"
            },
        }
    }
}

} // verus!

use vstd::string::StringExecFns;

verus! {

impl PekZepSyllable {
    /// Serializes the syllable in the alternate "rerrliratixka" romanization.
    pub fn to_rerrliratixka(self) -> (r: String)
        ensures
            r@ == rerrliratixka_chars(self),
    {
        let mut r = String::new();
        r.append(self.onset.to_str());
        if self.tone == Tone::Second {
            proof {
                reveal_strlit("r");
                assert("r"@ =~= seq!['r']);
            }
            r.append("r");
        }
        if self.tone == Tone::First {
            r.append(self.vowel.first_tone_rerrliratixka());
        } else {
            r.append(self.vowel.to_str());
        }
        r.append(self.coda.to_str());
        proof {
            assert(r@ =~= rerrliratixka_chars(self));
        }
        r
    }

    /// Serializes the syllable in the plain romanization; the exact mirror of
    /// `parse`.
    pub fn to_latin(self) -> (r: String)
        ensures
            r@ == latin_chars(self),
    {
        let mut r = String::new();
        r.append(self.onset.to_str());
        r.append(self.vowel.to_str());
        r.append(self.coda.to_str());
        match self.tone {
            Tone::No => {},
            Tone::First => {
                proof {
                    reveal_strlit("1");
                    assert("1"@ =~= seq!['1']);
                }
                r.append("1");
            },
            Tone::Second => {
                proof {
                    reveal_strlit("2");
                    assert("2"@ =~= seq!['2']);
                }
                r.append("2");
            },
        }
        proof {
            assert(r@ =~= latin_chars(self));
        }
        r
    }

    /// Parses a romanized token into a syllable; `None` when the token does
    /// not follow the romanization grammar.
    pub fn parse(s: &str) -> (r: Option<PekZepSyllable>)
        ensures
            r == parse_spec(s@),
    {
        let t = text::chars_vec(s);
        PekZepSyllable::parse_chars(&t)
    }

    /// Parses a romanized token given as characters.
    pub fn parse_chars(t: &Vec<char>) -> (r: Option<PekZepSyllable>)
        ensures
            r == parse_spec(t@),
    {
        if t.len() == 0 {
            return None;
        }
        let tone = tone_of(t[t.len() - 1]);
        let onset = match onset_of(t[0]) {
            None => {
                return None;
            },
            Some(o) => o,
        };
        let lo: usize = if onset == Onset::Zero {
            0
        } else {
            1
        };
        let hi: usize = t.len() - (if tone == Tone::No {
            0
        } else {
            1
        });
        if hi <= lo {
            return None;
        }
        let ghost rem = t@.subrange(lo as int, hi as int);
        assert(rem.last() == t@[hi - 1]);
        let coda = coda_of(t[hi - 1]);
        let vhi: usize = hi - (if coda == Coda::Zero {
            0
        } else {
            1
        });
        let vow = text::copy_range(t, lo, vhi);
        proof {
            assert(vow@ =~= rem.take(rem.len() - (if coda == Coda::Zero {
                0int
            } else {
                1int
            })));
        }
        match vowel_of(&vow) {
            None => None,
            Some(vowel) => Some(PekZepSyllable { onset, vowel, coda, tone }),
        }
    }
}

/// Decides the tone marked by a trailing digit.
pub fn tone_of(c: char) -> (r: Tone)
    ensures
        r == tone_of_char(c),
{
    if c == '1' {
        Tone::First
    } else if c == '2' {
        Tone::Second
    } else {
        Tone::No
    }
}

/// Decides the onset introduced by the first character.
pub fn onset_of(c: char) -> (r: Option<Onset>)
    ensures
        r == onset_of_char(c),
{
    if c == 'p' {
        Some(Onset::P)
    } else if c == 'b' {
        Some(Onset::B)
    } else if c == 'm' {
        Some(Onset::M)
    } else if c == 'c' {
        Some(Onset::C)
    } else if c == 's' {
        Some(Onset::S)
    } else if c == 'x' {
        Some(Onset::X)
    } else if c == 'z' {
        Some(Onset::Z)
    } else if c == 't' {
        Some(Onset::T)
    } else if c == 'd' {
        Some(Onset::D)
    } else if c == 'n' {
        Some(Onset::N)
    } else if c == 'l' {
        Some(Onset::L)
    } else if c == 'k' {
        Some(Onset::K)
    } else if c == 'g' {
        Some(Onset::G)
    } else if c == 'h' {
        Some(Onset::H)
    } else if c == 'a' || c == 'e' || c == 'i' || c == 'o' || c == 'u' || c == 'y' {
        Some(Onset::Zero)
    } else {
        None
    }
}

/// Decides the coda marked by the last remaining character.
pub fn coda_of(c: char) -> (r: Coda)
    ensures
        r == coda_of_char(c),
{
    if c == 'p' {
        Coda::P
    } else if c == 't' {
        Coda::T
    } else if c == 'k' {
        Coda::K
    } else if c == 'm' {
        Coda::M
    } else if c == 'n' {
        Coda::N
    } else {
        Coda::Zero
    }
}

/// Looks the vowel nucleus spelling up in the closed table.
pub fn vowel_of(v: &Vec<char>) -> (r: Option<Vowel>)
    ensures
        r == vowel_of_chars(v@),
{
    if v.len() == 1 {
        let c = v[0];
        assert(v@ =~= seq![c]);
        if c == 'a' {
            Some(Vowel::A)
        } else if c == 'e' {
            Some(Vowel::E)
        } else if c == 'o' {
            Some(Vowel::O)
        } else if c == 'i' {
            Some(Vowel::I)
        } else if c == 'u' {
            Some(Vowel::U)
        } else if c == 'y' {
            Some(Vowel::Y)
        } else {
            None
        }
    } else if v.len() == 2 {
        let c0 = v[0];
        let c1 = v[1];
        assert(v@ =~= seq![c0, c1]);
        if c0 == 'i' && c1 == 'a' {
            Some(Vowel::IA)
        } else if c0 == 'u' && c1 == 'a' {
            Some(Vowel::UA)
        } else if c0 == 'a' && c1 == 'i' {
            Some(Vowel::AI)
        } else if c0 == 'a' && c1 == 'u' {
            Some(Vowel::AU)
        } else if c0 == 'i' && c1 == 'e' {
            Some(Vowel::IE)
        } else if c0 == 'u' && c1 == 'e' {
            Some(Vowel::UE)
        } else if c0 == 'e' && c1 == 'i' {
            Some(Vowel::EI)
        } else if c0 == 'i' && c1 == 'o' {
            Some(Vowel::IO)
        } else if c0 == 'u' && c1 == 'o' {
            Some(Vowel::UO)
        } else if c0 == 'u' && c1 == 'i' {
            Some(Vowel::UI)
        } else {
            None
        }
    } else if v.len() == 3 {
        let c0 = v[0];
        let c1 = v[1];
        let c2 = v[2];
        assert(v@ =~= seq![c0, c1, c2]);
        if c0 == 'u' && c1 == 'a' && c2 == 'i' {
            Some(Vowel::UAI)
        } else if c0 == 'i' && c1 == 'a' && c2 == 'u' {
            Some(Vowel::IAU)
        } else if c0 == 'u' && c1 == 'a' && c2 == 'u' {
            Some(Vowel::UAU)
        } else if c0 == 'i' && c1 == 'e' && c2 == 'i' {
            Some(Vowel::IEI)
        } else {
            None
        }
    } else {
        None
    }
}

} // verus!

verus! {

/// The vowel letters that may open or close a vowel nucleus spelling.
pub open spec fn is_vowel_letter(c: char) -> bool {
    c == 'a' || c == 'e' || c == 'i' || c == 'o' || c == 'u' || c == 'y'
}

proof fn lemma_vowel_letter_classes(c: char)
    requires
        is_vowel_letter(c),
    ensures
        onset_of_char(c) == Some(Onset::Zero),
        coda_of_char(c) == Coda::Zero,
        tone_of_char(c) == Tone::No,
{
}

proof fn lemma_vowel_shape(v: Vowel)
    ensures
        1 <= vowel_chars(v).len() <= 3,
        is_vowel_letter(vowel_chars(v)[0]),
        is_vowel_letter(vowel_chars(v).last()),
{
    match v {
        Vowel::A => {},
        Vowel::IA => {},
        Vowel::UA => {},
        Vowel::AI => {},
        Vowel::UAI => {},
        Vowel::AU => {},
        Vowel::IAU => {},
        Vowel::UAU => {},
        Vowel::E => {},
        Vowel::IE => {},
        Vowel::UE => {},
        Vowel::EI => {},
        Vowel::IEI => {},
        Vowel::O => {},
        Vowel::IO => {},
        Vowel::UO => {},
        Vowel::I => {},
        Vowel::UI => {},
        Vowel::U => {},
        Vowel::Y => {},
    }
}

proof fn lemma_vowel_table_roundtrip(v: Vowel)
    ensures
        vowel_of_chars(vowel_chars(v)) == Some(v),
{
    match v {
        Vowel::A => {
            assert(vowel_of_chars(vowel_chars(v)) == Some(v));
        },
        Vowel::IA => {
            assert(vowel_of_chars(vowel_chars(v)) == Some(v));
        },
        Vowel::UA => {
            assert(vowel_of_chars(vowel_chars(v)) == Some(v));
        },
        Vowel::AI => {
            assert(vowel_of_chars(vowel_chars(v)) == Some(v));
        },
        Vowel::UAI => {
            assert(vowel_of_chars(vowel_chars(v)) == Some(v));
        },
        Vowel::AU => {
            assert(vowel_of_chars(vowel_chars(v)) == Some(v));
        },
        Vowel::IAU => {
            assert(vowel_of_chars(vowel_chars(v)) == Some(v));
        },
        Vowel::UAU => {
            assert(vowel_of_chars(vowel_chars(v)) == Some(v));
        },
        Vowel::E => {
            assert(vowel_of_chars(vowel_chars(v)) == Some(v));
        },
        Vowel::IE => {
            assert(vowel_of_chars(vowel_chars(v)) == Some(v));
        },
        Vowel::UE => {
            assert(vowel_of_chars(vowel_chars(v)) == Some(v));
        },
        Vowel::EI => {
            assert(vowel_of_chars(vowel_chars(v)) == Some(v));
        },
        Vowel::IEI => {
            assert(vowel_of_chars(vowel_chars(v)) == Some(v));
        },
        Vowel::O => {
            assert(vowel_of_chars(vowel_chars(v)) == Some(v));
        },
        Vowel::IO => {
            assert(vowel_of_chars(vowel_chars(v)) == Some(v));
        },
        Vowel::UO => {
            assert(vowel_of_chars(vowel_chars(v)) == Some(v));
        },
        Vowel::I => {
            assert(vowel_of_chars(vowel_chars(v)) == Some(v));
        },
        Vowel::UI => {
            assert(vowel_of_chars(vowel_chars(v)) == Some(v));
        },
        Vowel::U => {
            assert(vowel_of_chars(vowel_chars(v)) == Some(v));
        },
        Vowel::Y => {
            assert(vowel_of_chars(vowel_chars(v)) == Some(v));
        },
    }
}

proof fn lemma_onset_table_roundtrip(o: Onset)
    requires
        o != Onset::Zero,
    ensures
        onset_chars(o).len() == 1,
        onset_of_char(onset_chars(o)[0]) == Some(o),
{
}

proof fn lemma_coda_table_roundtrip(c: Coda)
    requires
        c != Coda::Zero,
    ensures
        coda_chars(c).len() == 1,
        coda_of_char(coda_chars(c)[0]) == c,
        tone_of_char(coda_chars(c)[0]) == Tone::No,
{
}

/// Round-trip law of the syllable codec: parsing the romanized spelling of any
/// syllable yields that syllable back.
pub proof fn lemma_parse_latin_roundtrip(s: PekZepSyllable)
    ensures
        parse_spec(latin_chars(s)) == Some(s),
{
    let t = latin_chars(s);
    let o = onset_chars(s.onset);
    let v = vowel_chars(s.vowel);
    let c = coda_chars(s.coda);
    let d = tone_chars(s.tone);
    lemma_vowel_shape(s.vowel);
    lemma_vowel_table_roundtrip(s.vowel);
    lemma_vowel_letter_classes(v[0]);
    lemma_vowel_letter_classes(v.last());
    if s.onset != Onset::Zero {
        lemma_onset_table_roundtrip(s.onset);
    }
    if s.coda != Coda::Zero {
        lemma_coda_table_roundtrip(s.coda);
    }
    assert(t.len() == o.len() + v.len() + c.len() + d.len());

    // The trailing character decides the tone correctly.
    if s.tone == Tone::No {
        if s.coda != Coda::Zero {
            assert(t.last() == c[0]);
        } else {
            assert(t.last() == v.last());
        }
        assert(tone_of_char(t.last()) == s.tone);
    } else {
        assert(t.last() == d[0]);
        assert(tone_of_char(t.last()) == s.tone);
    }

    // The leading character decides the onset correctly.
    if s.onset == Onset::Zero {
        assert(t[0] == v[0]);
        assert(onset_of_char(t[0]) == Some(s.onset));
    } else {
        assert(t[0] == o[0]);
        assert(onset_of_char(t[0]) == Some(s.onset));
    }

    let lo: int = if s.onset == Onset::Zero {
        0
    } else {
        1
    };
    let hi: int = t.len() - (if s.tone == Tone::No {
        0int
    } else {
        1int
    });
    assert(lo == o.len());
    assert(hi == o.len() + v.len() + c.len());
    assert(hi - lo >= 1);

    let rem = t.subrange(lo, hi);
    assert(rem =~= v + c);

    // The last remaining character decides the coda correctly.
    if s.coda == Coda::Zero {
        assert(rem.last() == v.last());
        assert(coda_of_char(rem.last()) == s.coda);
    } else {
        assert(rem.last() == c[0]);
        assert(coda_of_char(rem.last()) == s.coda);
    }

    let vow = rem.take(rem.len() - (if s.coda == Coda::Zero {
        0int
    } else {
        1int
    }));
    assert(vow =~= v);
    assert(vowel_of_chars(vow) == Some(s.vowel));
}

} // verus!
