use crate::constraint::{
    in_class, is_digit, is_lower_letter, is_upper_letter, satisfies, Constraint,
};
use crate::random::draw_below;
use crate::text::{chars_of, lower_of, push_all, string_of, to_lower, to_upper, upper_of};
use rand::rngs::StdRng;
use vstd::prelude::*;

verus! {

/// How many draws from the word list one letter pick may make, per word of
/// the list, before it gives up on the attempt.
pub const WORD_DRAWS: usize = 4;

/// Settings of one run of the generator.
pub struct Config {
    /// Shortest length of a password, in characters.
    pub min: usize,
    /// Longest length of a password, in characters.
    pub max: usize,
    /// The characters that count as symbols.
    pub symbols: String,
    /// How many candidates may be built before giving up.
    pub tries: usize,
}

/// How the letters of a candidate are chosen.
pub enum Picker {
    /// One letter at a time, from `'a'..'z'` or `'A'..'Z'`.
    Chars,
    /// A whole word of the list at a time, its first character in the case
    /// asked for and the rest as written.
    Words(Vec<Vec<char>>),
}

/// No candidate was accepted within the allowed number of tries.
#[derive(Clone, Copy, Debug, PartialEq, Eq, Structural)]
pub struct Exhausted {
    pub tries: usize,
}

/// A candidate that was built in full and then turned down, with what was
/// found of it.
pub struct Rejection {
    /// The candidate.
    pub candidate: String,
    /// For each constraint of `required`, in order, whether it holds.
    pub verdicts: Vec<bool>,
}

/// `e` records a candidate that was turned down, with the verdict of each
/// constraint of `required` on it.
pub open spec fn records_rejection(
    e: Rejection,
    max: usize,
    required: Seq<Constraint>,
    symbols: Seq<char>,
) -> bool {
    &&& !acceptable(max, required, e.candidate@, symbols)
    &&& e.verdicts@.len() == required.len()
    &&& forall|j: int|
        0 <= j < required.len() ==> e.verdicts@[j] == #[trigger] satisfies(
            required[j],
            e.candidate@,
            symbols,
        )
}

impl Picker {
    /// Every word of the list has a first character.
    pub open spec fn wf(&self) -> bool {
        match self {
            Picker::Chars => true,
            Picker::Words(ws) => forall|i: int| 0 <= i < ws.len() ==> (#[trigger] ws@[i])@.len() >= 1,
        }
    }
}

/// A word with its first character mapped to lower case (or upper case) and
/// the rest kept as written.
pub open spec fn folded(w: Seq<char>, lower: bool) -> Seq<char> {
    (if lower {
        lower_of(w[0])
    } else {
        upper_of(w[0])
    }) + w.subrange(1, w.len() as int)
}

/// What one letter pick of `p` may append when the case asked for is lower
/// (`lower`) or upper: one letter of that case's range for `Picker::Chars`,
/// a word of the list folded to that case for `Picker::Words`.
pub open spec fn letter_piece(p: &Picker, lower: bool, u: Seq<char>) -> bool {
    match p {
        Picker::Chars => u.len() == 1 && (if lower {
            is_lower_letter(u[0])
        } else {
            is_upper_letter(u[0])
        }),
        Picker::Words(ws) => exists|i: int|
            0 <= i < ws.len() && u == #[trigger] folded(ws@[i]@, lower),
    }
}

/// What one step of building a candidate may append once `k` is drawn: a
/// lower-case or upper-case letter pick, one digit, or one symbol.
pub open spec fn piece_for(p: &Picker, k: Constraint, symbols: Seq<char>, u: Seq<char>) -> bool {
    match k {
        Constraint::LowerCaseLetter => letter_piece(p, true, u),
        Constraint::UpperCaseLetter => letter_piece(p, false, u),
        Constraint::Number => u.len() == 1 && is_digit(u[0]),
        Constraint::Symbol => u.len() == 1 && symbols.contains(u[0]),
    }
}

/// What one step may append: a piece for some constraint of `required`.
pub open spec fn piece(p: &Picker, required: Seq<Constraint>, symbols: Seq<char>, u: Seq<char>) -> bool {
    exists|j: int| 0 <= j < required.len() && #[trigger] piece_for(p, required[j], symbols, u)
}

/// `s` is a sequence of pieces, one after the other, each drawn for a
/// constraint of `required`.
pub open spec fn composed(p: &Picker, required: Seq<Constraint>, symbols: Seq<char>, s: Seq<char>) -> bool
    decreases s.len(),
{
    s.len() == 0 || exists|k: int|
        0 <= k < s.len() && composed(p, required, symbols, #[trigger] s.subrange(0, k)) && piece(
            p,
            required,
            symbols,
            s.subrange(k, s.len() as int),
        )
}

/// Every constraint of `required` holds of `s`.
pub open spec fn all_hold(required: Seq<Constraint>, s: Seq<char>, symbols: Seq<char>) -> bool {
    forall|j: int| 0 <= j < required.len() ==> #[trigger] satisfies(required[j], s, symbols)
}

/// A finished candidate is kept when it is not too long and every required
/// constraint holds of it.
pub open spec fn acceptable(
    max: usize,
    required: Seq<Constraint>,
    s: Seq<char>,
    symbols: Seq<char>,
) -> bool {
    s.len() <= max && all_hold(required, s, symbols)
}

/// Appending a piece to a composed string gives a composed string.
proof fn lemma_compose_step(
    p: &Picker,
    required: Seq<Constraint>,
    symbols: Seq<char>,
    s: Seq<char>,
    t: Seq<char>,
)
    requires
        composed(p, required, symbols, s),
        t.len() > s.len(),
        t.subrange(0, s.len() as int) == s,
        piece(p, required, symbols, t.subrange(s.len() as int, t.len() as int)),
    ensures
        composed(p, required, symbols, t),
{
    let k = s.len() as int;
    assert(composed(p, required, symbols, t.subrange(0, k)));
}

/// `c` is in the class of some constraint of `required`.
pub open spec fn in_some_class(required: Seq<Constraint>, c: char, symbols: Seq<char>) -> bool {
    exists|j: int| 0 <= j < required.len() && #[trigger] in_class(required[j], c, symbols)
}

/// Every character of a password built with `Picker::Chars` is in the class
/// of a constraint of `required`: a letter of `'a'..'z'` only where lower
/// case is required, of `'A'..'Z'` only where upper case is, a digit of
/// `'0'..'9'` only where a number is, a symbol only where a symbol is. So
/// `'z'` and `'Z'` occur in it only where they are symbols.
pub proof fn lemma_chars_alphabet(
    p: &Picker,
    required: Seq<Constraint>,
    symbols: Seq<char>,
    s: Seq<char>,
)
    requires
        p is Chars,
        composed(p, required, symbols, s),
    ensures
        forall|i: int| 0 <= i < s.len() ==> in_some_class(required, #[trigger] s[i], symbols),
        s.contains('z') ==> symbols.contains('z'),
        s.contains('Z') ==> symbols.contains('Z'),
    decreases s.len(),
{
    if s.len() > 0 {
        let k = choose|k: int|
            0 <= k < s.len() && composed(p, required, symbols, #[trigger] s.subrange(0, k))
                && piece(p, required, symbols, s.subrange(k, s.len() as int));
        let head = s.subrange(0, k);
        let last = s.subrange(k, s.len() as int);
        lemma_chars_alphabet(p, required, symbols, head);
        let j = choose|j: int| 0 <= j < required.len() && #[trigger] piece_for(p, required[j], symbols, last);
        assert(last.len() == 1);
        assert(in_class(required[j], last[0], symbols));
        assert forall|i: int| 0 <= i < s.len() implies in_some_class(required, #[trigger] s[i], symbols) by {
            if i < k {
                assert(head[i] == s[i]);
            } else {
                assert(last[i - k] == s[i]);
            }
        }
    }
    assert forall|c: char| s.contains(c) && (c == 'z' || c == 'Z') implies symbols.contains(c) by {
        let i = choose|i: int| 0 <= i < s.len() && s[i] == c;
        assert(in_some_class(required, s[i], symbols));
    }
}

/// Where every constraint of `required` is the same one, a non-empty
/// password built with `Picker::Chars` satisfies all of them.
proof fn lemma_uniform_chars_hold(
    p: &Picker,
    required: Seq<Constraint>,
    symbols: Seq<char>,
    s: Seq<char>,
)
    requires
        p is Chars,
        composed(p, required, symbols, s),
        s.len() >= 1,
        forall|j: int| 0 <= j < required.len() ==> #[trigger] required[j] == required[0],
    ensures
        all_hold(required, s, symbols),
{
    lemma_chars_alphabet(p, required, symbols, s);
    assert(in_some_class(required, s[0], symbols));
    assert forall|m: int| 0 <= m < required.len() implies #[trigger] satisfies(required[m], s, symbols) by {
        let j = choose|j: int| 0 <= j < required.len() && #[trigger] in_class(required[j], s[0], symbols);
        assert(in_class(required[m], s[0], symbols));
    }
}

/// Appends `w` with its first character mapped to lower case, or to upper
/// case, and the rest as written.
fn append_folded(s: &mut Vec<char>, w: &Vec<char>, lower: bool)
    requires
        w@.len() >= 1,
    ensures
        final(s)@ == old(s)@ + folded(w@, lower),
        final(s)@.len() > old(s)@.len(),
{
    let head = if lower {
        to_lower(w[0])
    } else {
        to_upper(w[0])
    };
    push_all(s, &head);
    let mut i: usize = 1;
    while i < w.len()
        invariant
            1 <= i <= w.len(),
            s@ == old(s)@ + head@ + w@.subrange(1, i as int),
        decreases w.len() - i,
    {
        s.push(w[i]);
        i += 1;
        assert(s@ =~= old(s)@ + head@ + w@.subrange(1, i as int));
    }
    assert(s@ =~= old(s)@ + folded(w@, lower));
}

/// Draws words of `words` until one fits within `max` beside `s`, and appends
/// it, its first character in the case asked for. Gives up, leaving `s` as it
/// was, after `WORD_DRAWS` draws per word of the list, or at once when the
/// list is empty or `s` is already longer than `max`.
pub fn pick_word(
    words: &Vec<Vec<char>>,
    s: &mut Vec<char>,
    max: usize,
    lower: bool,
    rng: &mut StdRng,
) -> (ok: bool)
    requires
        forall|i: int| 0 <= i < words.len() ==> (#[trigger] words@[i])@.len() >= 1,
    ensures
        ok ==> exists|i: int|
            0 <= i < words.len() && old(s)@.len() + words@[i]@.len() <= max && final(s)@ == old(
                s,
            )@ + #[trigger] folded(words@[i]@, lower),
        ok ==> final(s)@.len() > old(s)@.len(),
        !ok ==> final(s)@ == old(s)@,
        old(s)@.len() > max ==> !ok,
        words.len() == 0 ==> !ok,
        words.len() > 0 && old(s)@.len() <= max && (forall|i: int|
            0 <= i < words.len() ==> old(s)@.len() + (#[trigger] words@[i])@.len() <= max) ==> ok,
{
    let n = words.len();
    if n == 0 || s.len() > max {
        return false;
    }
    let room = max - s.len();
    let cap: usize = if n <= usize::MAX / WORD_DRAWS {
        n * WORD_DRAWS
    } else {
        usize::MAX
    };
    let ghost all_fit = forall|i: int|
        0 <= i < words.len() ==> old(s)@.len() + (#[trigger] words@[i])@.len() <= max;
    let mut k: usize = 0;
    while k < cap
        invariant
            all_fit == forall|i: int|
                0 <= i < words.len() ==> old(s)@.len() + (#[trigger] words@[i])@.len() <= max,
            all_fit ==> k == 0,
            cap >= 1,
            n == words.len(),
            n > 0,
            room == max - s@.len(),
            s@ == old(s)@,
            forall|i: int| 0 <= i < words.len() ==> (#[trigger] words@[i])@.len() >= 1,
        decreases cap - k,
    {
        let i = draw_below(rng, n);
        if words[i].len() <= room {
            append_folded(s, &words[i], lower);
            return true;
        }
        k += 1;
    }
    false
}

/// The letter `i` places after `'a'`, or after `'A'` when `lower` is false.
pub fn letter_at(i: usize, lower: bool) -> (c: char)
    requires
        i < 25,
    ensures
        c as int == (if lower {
            'a' as int
        } else {
            'A' as int
        }) + i,
        lower ==> is_lower_letter(c),
        !lower ==> is_upper_letter(c),
{
    let base: u8 = if lower {
        97
    } else {
        65
    };
    (base + i as u8) as char
}

/// The digit `i` places after `'0'`.
pub fn digit_at(i: usize) -> (c: char)
    requires
        i < 9,
    ensures
        c as int == '0' as int + i,
        is_digit(c),
{
    (48 + i as u8) as char
}

/// Appends one letter in the case asked for (`lower`, or upper case): a
/// single character of `'a'..'z'` or `'A'..'Z'` for `Picker::Chars`, a word
/// of the list folded to that case for `Picker::Words`. Returns `false`,
/// leaving `s` as it was, where no word could be placed.
pub fn pick_letter(
    picker: &Picker,
    s: &mut Vec<char>,
    max: usize,
    lower: bool,
    rng: &mut StdRng,
) -> (ok: bool)
    requires
        picker.wf(),
    ensures
        ok ==> final(s)@.len() > old(s)@.len() && final(s)@.subrange(0, old(s)@.len() as int)
            == old(s)@ && letter_piece(
            picker,
            lower,
            final(s)@.subrange(old(s)@.len() as int, final(s)@.len() as int),
        ),
        ok && picker is Chars ==> final(s)@.len() == old(s)@.len() + 1 && (if lower {
            is_lower_letter(final(s)@.last())
        } else {
            is_upper_letter(final(s)@.last())
        }),
        picker is Chars ==> ok,
        !ok ==> final(s)@ == old(s)@,
{
    match picker {
        Picker::Chars => {
            let c = letter_at(draw_below(rng, 25), lower);
            s.push(c);
            proof {
                let t = s@.subrange(old(s)@.len() as int, s@.len() as int);
                assert(t =~= seq![c]);
                assert(s@.subrange(0, old(s)@.len() as int) =~= old(s)@);
            }
            true
        },
        Picker::Words(ws) => {
            let ghost before = s@;
            let ok = pick_word(ws, s, max, lower, rng);
            if ok {
                proof {
                    let i = choose|i: int|
                        0 <= i < ws.len() && before.len() + ws@[i]@.len() <= max && s@ == before
                            + #[trigger] folded(ws@[i]@, lower);
                    let u = folded(ws@[i]@, lower);
                    assert(s@.subrange(0, before.len() as int) =~= before);
                    assert(s@.subrange(before.len() as int, s@.len() as int) =~= u);
                    assert(letter_piece(picker, lower, u));
                }
            }
            ok
        },
    }
}

/// Builds one candidate: until it reaches `min` characters, draws a
/// constraint of `required` and appends a letter, digit or symbol for it.
/// Returns `None` where a letter pick gave up.
fn attempt(
    min: usize,
    max: usize,
    symbols: &Vec<char>,
    required: &Vec<Constraint>,
    picker: &Picker,
    rng: &mut StdRng,
) -> (r: Option<Vec<char>>)
    requires
        required.len() > 0,
        required@.contains(Constraint::Symbol) ==> symbols.len() > 0,
        picker.wf(),
    ensures
        r matches Some(s) ==> s@.len() >= min && composed(picker, required@, symbols@, s@),
        picker is Chars ==> (r matches Some(s) && s@.len() == min),
{
    let mut s: Vec<char> = Vec::new();
    while s.len() < min
        invariant
            required.len() > 0,
            required@.contains(Constraint::Symbol) ==> symbols.len() > 0,
            picker.wf(),
            composed(picker, required@, symbols@, s@),
            picker is Chars ==> s@.len() <= min,
        decreases if s@.len() < min { min - s@.len() } else { 0 },
    {
        let j = draw_below(rng, required.len());
        let k = required[j];
        let ghost before = s@;
        match k {
            Constraint::LowerCaseLetter => {
                if !pick_letter(picker, &mut s, max, true, rng) {
                    return None;
                }
            },
            Constraint::UpperCaseLetter => {
                if !pick_letter(picker, &mut s, max, false, rng) {
                    return None;
                }
            },
            Constraint::Number => {
                let c = digit_at(draw_below(rng, 9));
                s.push(c);
                assert(s@.subrange(before.len() as int, s@.len() as int) =~= seq![c]);
            },
            Constraint::Symbol => {
                assert(required@[j as int] == Constraint::Symbol);
                let i = draw_below(rng, symbols.len());
                let c = symbols[i];
                s.push(c);
                assert(symbols@.contains(c));
                assert(s@.subrange(before.len() as int, s@.len() as int) =~= seq![c]);
            },
        }
        proof {
            assert(s@.subrange(0, before.len() as int) =~= before);
            assert(piece_for(picker, required@[j as int], symbols@, s@.subrange(before.len() as int, s@.len() as int)));
            lemma_compose_step(picker, required@, symbols@, before, s@);
        }
    }
    Some(s)
}

/// Whether a finished candidate is kept: it is at most `max` long and every
/// constraint of `required` holds of it.
pub fn accepts(max: usize, required: &Vec<Constraint>, symbols: &Vec<char>, s: &Vec<char>) -> (r:
    bool)
    ensures
        r == acceptable(max, required@, s@, symbols@),
{
    if s.len() > max {
        return false;
    }
    let mut j: usize = 0;
    while j < required.len()
        invariant
            0 <= j <= required.len(),
            forall|i: int| 0 <= i < j ==> #[trigger] satisfies(required@[i], s@, symbols@),
        decreases required.len() - j,
    {
        if !required[j].verify_chars(symbols, s) {
            return false;
        }
        j += 1;
    }
    true
}

/// For each constraint of `required`, in order, whether it holds of `s`.
pub fn verdicts(required: &Vec<Constraint>, symbols: &Vec<char>, s: &Vec<char>) -> (r: Vec<bool>)
    ensures
        r@.len() == required.len(),
        forall|j: int| 0 <= j < required.len() ==> r@[j] == #[trigger] satisfies(required@[j], s@, symbols@),
{
    let mut r: Vec<bool> = Vec::new();
    let mut j: usize = 0;
    while j < required.len()
        invariant
            0 <= j <= required.len(),
            r@.len() == j,
            forall|i: int| 0 <= i < j ==> r@[i] == #[trigger] satisfies(required@[i], s@, symbols@),
        decreases required.len() - j,
    {
        r.push(required[j].verify_chars(symbols, s));
        j += 1;
    }
    r
}

/// Generates a password: builds candidates, at most `cfg.tries` of them, and
/// returns the first that is accepted, with the number of candidates built.
/// Every accepted password is between `cfg.min` and `cfg.max` characters
/// long, satisfies each constraint of `required`, and is made of pieces that
/// the picker, the digits and `cfg.symbols` provide for the constraints of
/// `required`. With `Picker::Chars` and a single kind of constraint, the
/// first candidate is accepted. Each candidate that is built in full and
/// turned down is added to `rejections`, with the verdict of each constraint.
pub fn generate(
    cfg: &Config,
    required: &Vec<Constraint>,
    picker: &Picker,
    rng: &mut StdRng,
    rejections: &mut Vec<Rejection>,
) -> (r: Result<(String, usize), Exhausted>)
    requires
        required.len() > 0,
        required@.contains(Constraint::Symbol) ==> cfg.symbols@.len() > 0,
        picker.wf(),
    ensures
        r matches Ok((out, n)) ==> cfg.min <= out@.len() <= cfg.max && all_hold(
            required@,
            out@,
            cfg.symbols@,
        ) && composed(picker, required@, cfg.symbols@, out@) && 1 <= n <= cfg.tries,
        r matches Err(e) ==> e.tries == cfg.tries,
        picker is Chars && cfg.tries >= 1 && 1 <= cfg.min <= cfg.max && (forall|j: int|
            0 <= j < required.len() ==> #[trigger] required@[j] == required@[0]) ==> (r matches Ok((_, n))
            && n == 1),
        final(rejections)@.len() >= old(rejections)@.len(),
        final(rejections)@.subrange(0, old(rejections)@.len() as int) == old(rejections)@,
        forall|i: int|
            old(rejections)@.len() <= i < final(rejections)@.len() ==> records_rejection(
                #[trigger] final(rejections)@[i],
                cfg.max,
                required@,
                cfg.symbols@,
            ),
{
    let symbols = chars_of(cfg.symbols.as_str());
    let ghost sure = picker is Chars && cfg.tries >= 1 && 1 <= cfg.min <= cfg.max && (forall|
        j: int,
    | 0 <= j < required.len() ==> #[trigger] required@[j] == required@[0]);
    let mut n: usize = 0;
    while n < cfg.tries
        invariant
            sure == (picker is Chars && cfg.tries >= 1 && 1 <= cfg.min <= cfg.max && (forall|
                j: int,
            | 0 <= j < required.len() ==> #[trigger] required@[j] == required@[0])),
            sure ==> n == 0,
            rejections@.len() >= old(rejections)@.len(),
            rejections@.subrange(0, old(rejections)@.len() as int) == old(rejections)@,
            forall|i: int|
                old(rejections)@.len() <= i < rejections@.len() ==> records_rejection(
                    #[trigger] rejections@[i],
                    cfg.max,
                    required@,
                    cfg.symbols@,
                ),
            symbols@ == cfg.symbols@,
            required.len() > 0,
            required@.contains(Constraint::Symbol) ==> symbols.len() > 0,
            picker.wf(),
        decreases cfg.tries - n,
    {
        n += 1;
        let cand = attempt(cfg.min, cfg.max, &symbols, required, picker, rng);
        proof {
            if sure {
                lemma_uniform_chars_hold(picker, required@, symbols@, cand.unwrap()@);
            }
        }
        match cand {
            Some(s) => {
                if accepts(cfg.max, required, &symbols, &s) {
                    return Ok((string_of(&s), n));
                }
                let e = Rejection {
                    candidate: string_of(&s),
                    verdicts: verdicts(required, &symbols, &s),
                };
                let ghost before = rejections@;
                rejections.push(e);
                assert(rejections@.subrange(0, old(rejections)@.len() as int) =~= before.subrange(
                    0,
                    old(rejections)@.len() as int,
                ));
            },
            None => {},
        }
    }
    Err(Exhausted { tries: cfg.tries })
}

} // verus!
