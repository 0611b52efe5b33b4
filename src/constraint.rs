use crate::generator::Config;
use crate::text::chars_of;
use vstd::prelude::*;

verus! {

/// A character class that a password may be required to contain.
#[derive(Clone, Copy, Debug, PartialEq, Eq, Structural)]
pub enum Constraint {
    LowerCaseLetter,
    UpperCaseLetter,
    Number,
    Symbol,
}

/// Lower-case letters are drawn from `'a'..'z'`: the end is not included.
pub open spec fn is_lower_letter(c: char) -> bool {
    'a' <= c && c < 'z'
}

/// Upper-case letters are drawn from `'A'..'Z'`: the end is not included.
pub open spec fn is_upper_letter(c: char) -> bool {
    'A' <= c && c < 'Z'
}

/// Digits are drawn from `'0'..'9'`: the end is not included.
pub open spec fn is_digit(c: char) -> bool {
    '0' <= c && c < '9'
}

/// Whether `c` belongs to the class of `k`, with `symbols` as the symbol set.
pub open spec fn in_class(k: Constraint, c: char, symbols: Seq<char>) -> bool {
    match k {
        Constraint::LowerCaseLetter => is_lower_letter(c),
        Constraint::UpperCaseLetter => is_upper_letter(c),
        Constraint::Number => is_digit(c),
        Constraint::Symbol => symbols.contains(c),
    }
}

/// A string satisfies a constraint when some character of it is in its class.
pub open spec fn satisfies(k: Constraint, s: Seq<char>, symbols: Seq<char>) -> bool {
    exists|i: int| 0 <= i < s.len() && #[trigger] in_class(k, s[i], symbols)
}

/// The four constraints, in declaration order.
pub open spec fn all_constraints() -> Seq<Constraint> {
    seq![
        Constraint::LowerCaseLetter,
        Constraint::UpperCaseLetter,
        Constraint::Number,
        Constraint::Symbol,
    ]
}

/// The constraints in force: `required`, or all four when `required` is
/// empty, without those listed in `excluded`.
pub open spec fn effective(required: Seq<Constraint>, excluded: Seq<Constraint>) -> Seq<Constraint> {
    let base = if required.len() == 0 { all_constraints() } else { required };
    base.filter(not_in(excluded))
}

/// The predicate "not listed in `excluded`".
pub open spec fn not_in(excluded: Seq<Constraint>) -> spec_fn(Constraint) -> bool {
    |k: Constraint| !excluded.contains(k)
}

pub(crate) fn contains_char(v: &Vec<char>, c: char) -> (r: bool)
    ensures
        r == v@.contains(c),
{
    let mut i: usize = 0;
    while i < v.len()
        invariant
            0 <= i <= v.len(),
            forall|j: int| 0 <= j < i ==> v@[j] != c,
        decreases v.len() - i,
    {
        if v[i] == c {
            return true;
        }
        i += 1;
    }
    false
}

fn contains_constraint(v: &Vec<Constraint>, k: Constraint) -> (r: bool)
    ensures
        r == v@.contains(k),
{
    let mut i: usize = 0;
    while i < v.len()
        invariant
            0 <= i <= v.len(),
            forall|j: int| 0 <= j < i ==> v@[j] != k,
        decreases v.len() - i,
    {
        if v[i] == k {
            return true;
        }
        i += 1;
    }
    false
}

impl Constraint {
    /// The four constraints, in declaration order.
    pub fn all() -> (r: Vec<Constraint>)
        ensures
            r@ == all_constraints(),
    {
        let r = vec![
            Constraint::LowerCaseLetter,
            Constraint::UpperCaseLetter,
            Constraint::Number,
            Constraint::Symbol,
        ];
        assert(r@ =~= all_constraints());
        r
    }

    /// Whether `c` is in this constraint's class.
    pub fn admits(self, symbols: &Vec<char>, c: char) -> (r: bool)
        ensures
            r == in_class(self, c, symbols@),
    {
        match self {
            Constraint::LowerCaseLetter => 'a' <= c && c < 'z',
            Constraint::UpperCaseLetter => 'A' <= c && c < 'Z',
            Constraint::Number => '0' <= c && c < '9',
            Constraint::Symbol => contains_char(symbols, c),
        }
    }

    /// Whether some character of `s` is in this constraint's class, with the
    /// symbols of `cfg`.
    pub fn verify(self, cfg: &Config, s: &str) -> (r: bool)
        ensures
            r == satisfies(self, s@, cfg.symbols@),
    {
        let symbols = chars_of(cfg.symbols.as_str());
        let cs = chars_of(s);
        self.verify_chars(&symbols, &cs)
    }

    /// Whether some character of `s` is in this constraint's class.
    pub fn verify_chars(self, symbols: &Vec<char>, s: &Vec<char>) -> (r: bool)
        ensures
            r == satisfies(self, s@, symbols@),
    {
        let mut i: usize = 0;
        while i < s.len()
            invariant
                0 <= i <= s.len(),
                forall|j: int| 0 <= j < i ==> !in_class(self, s@[j], symbols@),
            decreases s.len() - i,
        {
            if self.admits(symbols, s[i]) {
                return true;
            }
            i += 1;
        }
        false
    }
}

/// The constraints in force: `required`, or all four when `required` is
/// empty, without those listed in `excluded`. Order and repetitions of
/// `required` are kept.
pub fn effective_required(required: &Vec<Constraint>, excluded: &Vec<Constraint>) -> (r: Vec<
    Constraint,
>)
    ensures
        r@ == effective(required@, excluded@),
{
    let base = if required.len() == 0 {
        Constraint::all()
    } else {
        required.clone()
    };
    let mut r: Vec<Constraint> = Vec::new();
    let mut i: usize = 0;
    while i < base.len()
        invariant
            0 <= i <= base.len(),
            r@ == base@.subrange(0, i as int).filter(not_in(excluded@)),
        decreases base.len() - i,
    {
        let k = base[i];
        let keep = !contains_constraint(excluded, k);
        proof {
            reveal(Seq::filter);
            let next = base@.subrange(0, i + 1);
            assert(next.drop_last() =~= base@.subrange(0, i as int));
            assert(next.last() == k);
            assert(keep == !excluded@.contains(k));
            assert(not_in(excluded@)(k) == keep);
        }
        if keep {
            r.push(k);
        }
        i += 1;
    }
    assert(base@.subrange(0, base.len() as int) =~= base@);
    r
}

} // verus!
