use crate::constraint::{contains_char, Constraint};
use crate::generator::Config;
use vstd::prelude::*;

verus! {

/// A configuration on which generation cannot start.
#[derive(Clone, Copy, Debug, PartialEq, Eq, Structural)]
pub enum ConfigError {
    /// No constraint is left once the exclusions are applied.
    NoConstraint,
    /// The shortest length is above the longest.
    MinAboveMax,
    /// The shortest length does not exceed the number of constraints.
    MinTooShort,
    /// A symbol is required but there are no symbols to draw from.
    NoSymbols,
    /// No word of the list has a length between the shortest and the longest.
    NoFittingWord,
}

/// The verdict on a configuration, in the order in which its conditions are
/// tested.
pub open spec fn config_verdict(
    min: usize,
    max: usize,
    symbols: Seq<char>,
    required: Seq<Constraint>,
) -> Result<(), ConfigError> {
    if required.len() == 0 {
        Err(ConfigError::NoConstraint)
    } else if min > max {
        Err(ConfigError::MinAboveMax)
    } else if min <= required.len() {
        Err(ConfigError::MinTooShort)
    } else if required.contains(Constraint::Symbol) && symbols.len() == 0 {
        Err(ConfigError::NoSymbols)
    } else {
        Ok(())
    }
}

/// A word is usable when it is not empty, holds no apostrophe and is at most
/// `max` characters long.
pub open spec fn usable(w: Seq<char>, max: usize) -> bool {
    w.len() >= 1 && w.len() <= max && !w.contains('\'')
}

/// The usable words of `ws`, in order.
pub open spec fn usable_list(ws: Seq<Seq<char>>, max: usize) -> Seq<Seq<char>> {
    ws.filter(|w: Seq<char>| usable(w, max))
}

/// Whether `c` is white space: a character with Unicode's White_Space
/// property.
pub open spec fn is_white(c: char) -> bool {
    let n = c as u32;
    (0x9 <= n <= 0xd) || n == 0x20 || n == 0x85 || n == 0xa0 || n == 0x1680 || (0x2000 <= n
        <= 0x200a) || n == 0x2028 || n == 0x2029 || n == 0x202f || n == 0x205f || n == 0x3000
}

/// The pieces of `s` between white-space characters, empty ones included:
/// `k` white-space characters part `s` into `k + 1` pieces.
pub open spec fn fields(s: Seq<char>) -> Seq<Seq<char>>
    decreases s.len(),
{
    if s.len() == 0 {
        seq![seq![]]
    } else {
        let f = fields(s.drop_last());
        if is_white(s.last()) {
            f.push(seq![])
        } else {
            f.update(f.len() - 1, f.last().push(s.last()))
        }
    }
}

proof fn lemma_fields_nonempty(s: Seq<char>)
    ensures
        fields(s).len() >= 1,
    decreases s.len(),
{
    if s.len() > 0 {
        lemma_fields_nonempty(s.drop_last());
    }
}

/// Whether `c` is white space, as `char::is_whitespace` decides it.
pub fn white(c: char) -> (r: bool)
    ensures
        r == is_white(c),
{
    let n = c as u32;
    (0x9 <= n && n <= 0xd) || n == 0x20 || n == 0x85 || n == 0xa0 || n == 0x1680 || (0x2000 <= n
        && n <= 0x200a) || n == 0x2028 || n == 0x2029 || n == 0x202f || n == 0x205f || n == 0x3000
}

/// Splits `text` at each white-space character, as `str::split` does with
/// `char::is_whitespace`: empty pieces are kept.
pub fn split_words(text: &str) -> (r: Vec<Vec<char>>)
    ensures
        word_views(r@) == fields(text@),
{
    let s = crate::text::chars_of(text);
    let mut done: Vec<Vec<char>> = Vec::new();
    let mut cur: Vec<char> = Vec::new();
    let mut i: usize = 0;
    while i < s.len()
        invariant
            0 <= i <= s.len(),
            s@ == text@,
            word_views(done@).push(cur@) == fields(s@.subrange(0, i as int)),
        decreases s.len() - i,
    {
        let c = s[i];
        let ghost prefix = s@.subrange(0, i + 1);
        proof {
            assert(prefix.drop_last() =~= s@.subrange(0, i as int));
            lemma_fields_nonempty(prefix.drop_last());
        }
        if white(c) {
            let ghost d = done@;
            let full = cur;
            cur = Vec::new();
            done.push(full);
            assert(word_views(done@) =~= word_views(d).push(full@));
            assert(word_views(done@).push(cur@) =~= fields(prefix));
        } else {
            let ghost d = done@;
            cur.push(c);
            assert(word_views(done@).push(cur@) =~= fields(prefix));
        }
        i += 1;
    }
    assert(s@.subrange(0, s.len() as int) =~= s@);
    let ghost d = done@;
    done.push(cur);
    assert(word_views(done@) =~= word_views(d).push(cur@));
    done
}

/// The views of a list of words.
pub open spec fn word_views(ws: Seq<Vec<char>>) -> Seq<Seq<char>> {
    ws.map_values(|w: Vec<char>| w@)
}

/// Tests a configuration before generation: some constraint is in force,
/// `min <= max`, `min` exceeds the number of constraints, and there are
/// symbols wherever a symbol is required.
pub fn check_config(cfg: &Config, required: &Vec<Constraint>) -> (r: Result<(), ConfigError>)
    ensures
        r == config_verdict(cfg.min, cfg.max, cfg.symbols@, required@),
{
    if required.len() == 0 {
        return Err(ConfigError::NoConstraint);
    }
    if cfg.min > cfg.max {
        return Err(ConfigError::MinAboveMax);
    }
    if cfg.min <= required.len() {
        return Err(ConfigError::MinTooShort);
    }
    let mut has_symbol = false;
    let mut j: usize = 0;
    while j < required.len()
        invariant
            0 <= j <= required.len(),
            has_symbol == exists|i: int| 0 <= i < j && required@[i] == Constraint::Symbol,
        decreases required.len() - j,
    {
        if required[j] == Constraint::Symbol {
            has_symbol = true;
        }
        j += 1;
    }
    if has_symbol && cfg.symbols.as_str().unicode_len() == 0 {
        return Err(ConfigError::NoSymbols);
    }
    Ok(())
}

/// The words of `words` that can take part in a password at most `max`
/// characters long: not empty, without an apostrophe, at most `max`
/// characters. Order is kept.
pub fn usable_words(words: &Vec<Vec<char>>, max: usize) -> (r: Vec<Vec<char>>)
    ensures
        word_views(r@) == usable_list(word_views(words@), max),
        forall|i: int| 0 <= i < r.len() ==> (#[trigger] r@[i])@.len() >= 1,
{
    let mut r: Vec<Vec<char>> = Vec::new();
    let mut i: usize = 0;
    while i < words.len()
        invariant
            0 <= i <= words.len(),
            word_views(r@) == usable_list(word_views(words@).subrange(0, i as int), max),
            forall|k: int| 0 <= k < r.len() ==> (#[trigger] r@[k])@.len() >= 1,
        decreases words.len() - i,
    {
        let keep = words[i].len() >= 1 && words[i].len() <= max && !contains_char(&words[i], '\'');
        proof {
            reveal(Seq::filter);
            let next = word_views(words@).subrange(0, i + 1);
            assert(next.drop_last() =~= word_views(words@).subrange(0, i as int));
            assert(next.last() == words@[i as int]@);
        }
        if keep {
            let ghost before = r@;
            let w = words[i].clone();
            r.push(w);
            assert(word_views(r@) =~= word_views(before).push(w@));
        }
        i += 1;
    }
    assert(word_views(words@).subrange(0, words.len() as int) =~= word_views(words@));
    r
}

/// Tests that some word of the list has a length between `min` and `max`.
pub fn check_words(words: &Vec<Vec<char>>, min: usize, max: usize) -> (r: Result<(), ConfigError>)
    ensures
        r is Ok <==> exists|i: int| 0 <= i < words.len() && min <= #[trigger] words@[i]@.len() <= max,
        r is Err ==> r == Err::<(), ConfigError>(ConfigError::NoFittingWord),
{
    let mut i: usize = 0;
    while i < words.len()
        invariant
            0 <= i <= words.len(),
            forall|k: int| 0 <= k < i ==> !(min <= #[trigger] words@[k]@.len() <= max),
        decreases words.len() - i,
    {
        if min <= words[i].len() && words[i].len() <= max {
            return Ok(());
        }
        i += 1;
    }
    Err(ConfigError::NoFittingWord)
}

} // verus!
