//! Which characters a password may hold.

use vstd::prelude::*;
use vstd::std_specs::iter::IteratorSpec;
use std::collections::HashSet;
use crate::pool::{encoded_pools, pool_blocks};
use crate::cmdline::{
    accepted, command_line_error, password_count, requested_length, Args, RpassError,
};
use crate::glyphs::{
    ambiguous, ambiguous_chars, base64_alphabet, capital_chars, capitals, is_ascii_digit,
    is_ascii_digit_char, is_ascii_uppercase, is_ascii_uppercase_char, is_base64_glyph,
    lemma_base64_alphabet, lemma_char_code_injective, number_chars, numbers, symbol_chars, symbols,
};

verus! {

broadcast use {vstd::string::group_string_axioms, vstd::std_specs::hash::group_hash_axioms};

/// The exclusions that decide whether a character may appear in a password.
pub struct Exclusions {
    pub no_capitals: bool,
    pub no_numbers: bool,
    pub no_vowels: bool,
    pub no_ambiguous: bool,
    /// The characters of `--remove-chars`.
    pub removed: Set<char>,
    /// The vowels that `--no-vowels` leaves out.
    pub vowels: Set<char>,
}

impl Exclusions {
    /// A character survives every exclusion.
    pub open spec fn accepts(self, c: char) -> bool {
        !((self.no_capitals && is_ascii_uppercase(c)) || (self.no_numbers && is_ascii_digit(c))
            || (self.no_vowels && self.vowels.contains(c)) || (self.no_ambiguous
            && ambiguous_chars().contains(c)) || self.removed.contains(c))
    }

    /// No character of `set` survives.
    pub open spec fn excludes_all(self, set: Seq<char>) -> bool {
        forall|i: int| 0 <= i < set.len() ==> !self.accepts(#[trigger] set[i])
    }

    /// The characters of `set` that survive, in order.
    pub open spec fn survivors(self, set: Seq<char>) -> Seq<char> {
        set.filter(|c: char| self.accepts(c))
    }
}

/// The exclusions that a command line asks for, with the given vowels.
pub open spec fn exclusions_of(args: Args, vowels: Seq<char>) -> Exclusions {
    Exclusions {
        no_capitals: args.no_capitals,
        no_numbers: args.no_numbers,
        no_vowels: args.no_vowels,
        no_ambiguous: args.no_ambiguous,
        removed: args.remove@.to_set(),
        vowels: vowels.to_set(),
    }
}

/// Each exclusion flag reaches only the characters it names: turning `-A`
/// on or off changes nothing for a character that is not a capital letter,
/// `-0` nothing for one that is not a digit, `-v` nothing for one that is
/// not a vowel, `-B` nothing for one that is not ambiguous. With no flag
/// and nothing removed, every character is accepted; with a flag on, the
/// characters it names are refused.
pub proof fn lemma_flags_reach_only_their_class(args: Args, vowels: Seq<char>, c: char)
    ensures
        !('A' <= c <= 'Z') ==> exclusions_of(args, vowels).accepts(c) == exclusions_of(
            Args { no_capitals: !args.no_capitals, ..args },
            vowels,
        ).accepts(c),
        !('0' <= c <= '9') ==> exclusions_of(args, vowels).accepts(c) == exclusions_of(
            Args { no_numbers: !args.no_numbers, ..args },
            vowels,
        ).accepts(c),
        !vowels.contains(c) ==> exclusions_of(args, vowels).accepts(c) == exclusions_of(
            Args { no_vowels: !args.no_vowels, ..args },
            vowels,
        ).accepts(c),
        !"B8G6I1l0OQDS5Z2"@.contains(c) ==> exclusions_of(args, vowels).accepts(c)
            == exclusions_of(Args { no_ambiguous: !args.no_ambiguous, ..args }, vowels).accepts(c),
        !args.no_capitals && !args.no_numbers && !args.no_vowels && !args.no_ambiguous
            && !args.remove@.contains(c) ==> exclusions_of(args, vowels).accepts(c),
        args.no_capitals && 'A' <= c <= 'Z' ==> !exclusions_of(args, vowels).accepts(c),
        args.no_numbers && '0' <= c <= '9' ==> !exclusions_of(args, vowels).accepts(c),
        args.no_vowels && vowels.contains(c) ==> !exclusions_of(args, vowels).accepts(c),
        args.no_ambiguous && "B8G6I1l0OQDS5Z2"@.contains(c) ==> !exclusions_of(
            args,
            vowels,
        ).accepts(c),
        args.remove@.contains(c) ==> !exclusions_of(args, vowels).accepts(c),
{
    reveal_strlit("B8G6I1l0OQDS5Z2");
    assert("B8G6I1l0OQDS5Z2"@ =~= ambiguous_chars());
}

/// The characters whose code points a set holds.
pub open spec fn chars_of(codes: Set<u32>) -> Set<char> {
    Set::new(|c: char| codes.contains(c as u32))
}

/// The code points of `chars`, as a hash set.
pub fn code_set(chars: &Vec<char>) -> (s: HashSet<u32>)
    ensures
        forall|c: char| s@.contains(c as u32) <==> chars@.contains(c),
{
    let mut s: HashSet<u32> = HashSet::new();
    let mut i: usize = 0;
    while i < chars.len()
        invariant
            i <= chars@.len(),
            forall|c: char| s@.contains(c as u32) <==> chars@.take(i as int).contains(c),
        decreases chars@.len() - i,
    {
        let ch = chars[i];
        let ghost prev = s@;
        s.insert(ch as u32);
        proof {
            broadcast use vstd::seq_lib::group_seq_properties;

            assert(chars@.take(i + 1) =~= chars@.take(i as int).push(ch));
            assert forall|c: char| s@.contains(c as u32) <==> #[trigger] chars@.take(i + 1).contains(c) by {
                lemma_char_code_injective(c, ch);
                assert(s@.contains(c as u32) <==> (prev.contains(c as u32) || c as u32 == ch as u32));
            }
        }
        i += 1;
    }
    assert(chars@.take(chars@.len() as int) =~= chars@);
    s
}

/// The exclusions of a generator, with the sets they consult.
pub struct Policy {
    no_capitals: bool,
    no_numbers: bool,
    no_vowels: bool,
    no_ambiguous: bool,
    remove_set: HashSet<u32>,
    vowels: HashSet<u32>,
    ambiguous: HashSet<u32>,
}

impl View for Policy {
    type V = Exclusions;

    closed spec fn view(&self) -> Exclusions {
        Exclusions {
            no_capitals: self.no_capitals,
            no_numbers: self.no_numbers,
            no_vowels: self.no_vowels,
            no_ambiguous: self.no_ambiguous,
            removed: chars_of(self.remove_set@),
            vowels: chars_of(self.vowels@),
        }
    }
}

impl Policy {
    /// The ambiguous characters are the fixed set.
    pub closed spec fn wf(&self) -> bool {
        chars_of(self.ambiguous@) == ambiguous_chars().to_set()
    }

    /// The exclusions that `args` asks for; `vowels` are the vowels that
    /// `--no-vowels` leaves out.
    pub fn from_args(args: &Args, vowels: Vec<char>) -> (p: Policy)
        ensures
            p.wf(),
            p@ == exclusions_of(*args, vowels@),
    {
        let ghost text = args.remove@;
        let mut remove_set: HashSet<u32> = HashSet::new();
        let mut iter = args.remove.as_str().chars();
        let ghost mut n: int = 0;
        loop
            invariant
                text == args.remove@,
                0 <= n <= text.len(),
                iter.remaining() == text.skip(n),
                forall|c: char| remove_set@.contains(c as u32) <==> text.take(n).contains(c),
            ensures
                forall|c: char| remove_set@.contains(c as u32) <==> text.contains(c),
            decreases text.len() - n,
        {
            match iter.next() {
                Some(ch) => {
                    proof {
                        broadcast use vstd::seq_lib::group_seq_properties;

                        assert(text.skip(n).len() > 0);
                        assert(text.take(n + 1) =~= text.take(n).push(ch));
                    }
                    let ghost prev = remove_set@;
                    remove_set.insert(ch as u32);
                    proof {
                        broadcast use vstd::seq_lib::group_seq_properties;

                        assert forall|c: char|
                            remove_set@.contains(c as u32) <==> #[trigger] text.take(n + 1).contains(c) by {
                            lemma_char_code_injective(c, ch);
                            assert(remove_set@.contains(c as u32) <==> (prev.contains(c as u32)
                                || c as u32 == ch as u32));
                        }
                        n = n + 1;
                    }
                },
                None => {
                    assert(text.take(n) =~= text);
                    break ;
                },
            }
        }
        let vowel_set = code_set(&vowels);
        let ambiguous_set = code_set(&ambiguous());
        let p = Policy {
            no_capitals: args.no_capitals,
            no_numbers: args.no_numbers,
            no_vowels: args.no_vowels,
            no_ambiguous: args.no_ambiguous,
            remove_set,
            vowels: vowel_set,
            ambiguous: ambiguous_set,
        };
        assert(p@.removed =~= args.remove@.to_set());
        assert(p@.vowels =~= vowels@.to_set());
        assert(chars_of(p.ambiguous@) =~= ambiguous_chars().to_set());
        p
    }

    /// Whether `ch` may appear in a password.
    pub fn filter(&self, ch: char) -> (r: bool)
        requires
            self.wf(),
        ensures
            r == self@.accepts(ch),
    {
        let code = ch as u32;
        proof {
            assert(ambiguous_chars().to_set().contains(ch) == chars_of(self.ambiguous@).contains(ch));
        }
        !((self.no_capitals && is_ascii_uppercase_char(ch)) || (self.no_numbers
            && is_ascii_digit_char(ch)) || (self.no_vowels && self.vowels.contains(&code)) || (
        self.no_ambiguous && self.ambiguous.contains(&code)) || self.remove_set.contains(&code))
    }

    /// Writes the required classes into `buf`: the `k_sym`-th surviving
    /// symbol at `positions[0]`, the `k_cap`-th surviving capital at
    /// `positions[1]`, and the `k_num`-th surviving digit at `positions[2]`,
    /// each only where its class is required.
    pub fn place_required(
        &self,
        need_symbol: bool,
        need_capital: bool,
        need_number: bool,
        buf: &mut Vec<char>,
        positions: &Vec<usize>,
        k_sym: usize,
        k_cap: usize,
        k_num: usize,
    )
        requires
            self.wf(),
            need_symbol ==> positions@.len() > 0 && positions@[0] < old(buf)@.len() && k_sym
                < self@.survivors(symbol_chars()).len(),
            need_capital ==> positions@.len() > 1 && positions@[1] < old(buf)@.len() && k_cap
                < self@.survivors(capital_chars()).len(),
            need_number ==> positions@.len() > 2 && positions@[2] < old(buf)@.len() && k_num
                < self@.survivors(number_chars()).len(),
        ensures
            final(buf)@ == placement(
                self@,
                need_symbol,
                need_capital,
                need_number,
                old(buf)@,
                positions@,
                k_sym as int,
                k_cap as int,
                k_num as int,
            ),
    {
        if need_symbol {
            let cands = self.candidates(&symbols());
            buf.set(positions[0], cands[k_sym]);
        }
        if need_capital {
            let cands = self.candidates(&capitals());
            buf.set(positions[1], cands[k_cap]);
        }
        if need_number {
            let cands = self.candidates(&numbers());
            buf.set(positions[2], cands[k_num]);
        }
    }

    /// Whether no character of `set` may appear in a password.
    pub fn excludes_all(&self, set: &Vec<char>) -> (r: bool)
        requires
            self.wf(),
        ensures
            r == self@.excludes_all(set@),
    {
        let mut i: usize = 0;
        while i < set.len()
            invariant
                self.wf(),
                i <= set@.len(),
                forall|j: int| 0 <= j < i ==> !self@.accepts(#[trigger] set@[j]),
            decreases set@.len() - i,
        {
            if self.filter(set[i]) {
                return false;
            }
            i += 1;
        }
        true
    }

    /// The characters of `set` that may appear in a password, in order.
    pub fn candidates(&self, set: &Vec<char>) -> (r: Vec<char>)
        requires
            self.wf(),
        ensures
            r@ == self@.survivors(set@),
    {
        let ghost pred = |c: char| self@.accepts(c);
        let mut r: Vec<char> = Vec::new();
        let mut i: usize = 0;
        while i < set.len()
            invariant
                self.wf(),
                pred == (|c: char| self@.accepts(c)),
                i <= set@.len(),
                r@ == set@.take(i as int).filter(pred),
            decreases set@.len() - i,
        {
            let c = set[i];
            proof {
                assert(set@.take(i + 1) =~= set@.take(i as int).push(c));
                set@.take(i as int).lemma_filter_push(c, pred);
            }
            if self.filter(c) {
                r.push(c);
            }
            i += 1;
        }
        assert(set@.take(set@.len() as int) =~= set@);
        r
    }
}

/// Where a set has a character that survives, the survivors are not empty,
/// and each of them belongs to the set and survives.
pub proof fn lemma_survivors(ex: Exclusions, set: Seq<char>)
    ensures
        !ex.excludes_all(set) ==> ex.survivors(set).len() > 0,
        forall|i: int|
            0 <= i < ex.survivors(set).len() ==> set.contains(#[trigger] ex.survivors(set)[i])
                && ex.accepts(ex.survivors(set)[i]),
{
    let pred = |c: char| ex.accepts(c);
    broadcast use vstd::seq_lib::group_filter_ensures;

    if !ex.excludes_all(set) {
        let i = choose|i: int| 0 <= i < set.len() && ex.accepts(#[trigger] set[i]);
        set.lemma_filter_contains(pred, i);
    }
    assert forall|i: int| 0 <= i < ex.survivors(set).len() implies set.contains(
        #[trigger] ex.survivors(set)[i],
    ) && ex.accepts(ex.survivors(set)[i]) by {
        set.lemma_filter_pred(pred, i);
        set.lemma_filter_contains_rev(pred, set.filter(pred)[i]);
    }
}

/// What a generator promises of each password.
pub struct PasswordRules {
    /// Number of glyphs.
    pub length: nat,
    /// `--symbols`: at least one special character.
    pub need_symbol: bool,
    /// `--capitalize`: at least one capital letter.
    pub need_capital: bool,
    /// `--numerals`: at least one digit.
    pub need_number: bool,
    /// The characters that may not appear.
    pub exclusions: Exclusions,
}

/// The rules that a command line asks for, with the given vowels.
pub open spec fn rules_of(args: Args, vowels: Seq<char>) -> PasswordRules {
    PasswordRules {
        length: requested_length(args) as nat,
        need_symbol: args.ensure_symbols,
        need_capital: args.ensure_capitals,
        need_number: args.ensure_numbers,
        exclusions: exclusions_of(args, vowels),
    }
}

/// The refusal, if any, of rules that no password can meet, in the order
/// the checks run: a required class with every member excluded, or the whole
/// base64 alphabet excluded.
pub open spec fn rules_error(rules: PasswordRules) -> Option<RpassError> {
    if rules.need_symbol && rules.exclusions.excludes_all(symbol_chars()) {
        Some(RpassError::SymbolsExcluded)
    } else if rules.need_number && rules.exclusions.excludes_all(number_chars()) {
        Some(RpassError::NumbersExcluded)
    } else if rules.need_capital && rules.exclusions.excludes_all(capital_chars()) {
        Some(RpassError::CapitalsExcluded)
    } else if rules.exclusions.excludes_all(base64_alphabet()) {
        Some(RpassError::AllGlyphsExcluded)
    } else {
        None
    }
}

/// The lengths that the generators handle: at most 43 glyphs, and room for
/// each required class at its own position (the symbol goes to the first
/// shuffled position, the capital to the second, the digit to the third).
pub open spec fn length_supported(rules: PasswordRules) -> bool {
    &&& rules.length <= 43
    &&& room_for_classes(rules)
}

/// Room for each required class at its own position: the symbol goes to the
/// first shuffled position, the capital to the second, the digit to the
/// third.
pub open spec fn room_for_classes(rules: PasswordRules) -> bool {
    &&& rules.need_symbol ==> rules.length >= 1
    &&& rules.need_capital ==> rules.length >= 2
    &&& rules.need_number ==> rules.length >= 3
}

/// `p` is a shuffle of the positions `0..n`.
pub open spec fn shuffle_of_positions(p: Seq<usize>, n: nat) -> bool {
    p.to_multiset() == Seq::new(n, |i: int| i as usize).to_multiset()
}

/// `before` with the required classes placed: the `ks`-th surviving symbol
/// at `p[0]`, then the `kc`-th surviving capital at `p[1]`, then the `kn`-th
/// surviving digit at `p[2]`, each only where its class is required.
pub open spec fn placement(
    ex: Exclusions,
    need_symbol: bool,
    need_capital: bool,
    need_number: bool,
    before: Seq<char>,
    p: Seq<usize>,
    ks: int,
    kc: int,
    kn: int,
) -> Seq<char> {
    let a = if need_symbol {
        before.update(p[0] as int, ex.survivors(symbol_chars())[ks])
    } else {
        before
    };
    let b = if need_capital {
        a.update(p[1] as int, ex.survivors(capital_chars())[kc])
    } else {
        a
    };
    if need_number {
        b.update(p[2] as int, ex.survivors(number_chars())[kn])
    } else {
        b
    }
}

/// One draw from a generator's random source, as it came back.
pub enum RandomDraw {
    /// A shuffle: the sequence handed over, and the order that came back.
    Shuffle { input: Seq<usize>, output: Seq<usize> },
    /// An index below `bound`, and the index that came back.
    Index { bound: nat, value: nat },
}

/// The draws that placing the required classes makes, in order: a shuffle
/// of the positions `0..length`, which came back as `p`; then, for each
/// required class in turn (symbol, capital, digit), an index below its
/// number of survivors, which came back as `ks`, `kc`, `kn`.
pub open spec fn placement_draws(rules: PasswordRules, p: Seq<usize>, ks: int, kc: int, kn: int) -> Seq<
    RandomDraw,
> {
    let ex = rules.exclusions;
    let shuffle = seq![
        RandomDraw::Shuffle { input: Seq::new(rules.length, |i: int| i as usize), output: p },
    ];
    let symbol = if rules.need_symbol {
        seq![RandomDraw::Index { bound: ex.survivors(symbol_chars()).len(), value: ks as nat }]
    } else {
        Seq::empty()
    };
    let capital = if rules.need_capital {
        seq![RandomDraw::Index { bound: ex.survivors(capital_chars()).len(), value: kc as nat }]
    } else {
        Seq::empty()
    };
    let number = if rules.need_number {
        seq![RandomDraw::Index { bound: ex.survivors(number_chars()).len(), value: kn as nat }]
    } else {
        Seq::empty()
    };
    shuffle + symbol + capital + number
}

/// The random draws for placing the required classes: a shuffle of the
/// positions of a password of the rules' length, and for each required
/// class an index below its number of survivors.
pub open spec fn draws_ok(rules: PasswordRules, p: Seq<usize>, ks: int, kc: int, kn: int) -> bool {
    let ex = rules.exclusions;
    &&& shuffle_of_positions(p, rules.length)
    &&& rules.need_symbol ==> 0 <= ks < ex.survivors(symbol_chars()).len()
    &&& rules.need_capital ==> 0 <= kc < ex.survivors(capital_chars()).len()
    &&& rules.need_number ==> 0 <= kn < ex.survivors(number_chars()).len()
}

/// The required classes land where the draws say: the symbol at the first
/// position of the shuffle of `0..length` that came back, the capital at its
/// second, the digit at its third; and each is the survivor of its class at
/// the index drawn for it. The draws are logged in that order, the shuffle
/// first.
pub proof fn lemma_placement_follows_draws(
    rules: PasswordRules,
    before: Seq<char>,
    p: Seq<usize>,
    ks: int,
    kc: int,
    kn: int,
)
    requires
        before.len() == rules.length,
        rules.length <= usize::MAX,
        room_for_classes(rules),
        draws_ok(rules, p, ks, kc, kn),
    ensures
        ({
            let ex = rules.exclusions;
            let log = placement_draws(rules, p, ks, kc, kn);
            let pw = placement(
                ex,
                rules.need_symbol,
                rules.need_capital,
                rules.need_number,
                before,
                p,
                ks,
                kc,
                kn,
            );
            &&& log[0] == RandomDraw::Shuffle {
                input: Seq::new(rules.length, |i: int| i as usize),
                output: p,
            }
            &&& rules.need_symbol ==> pw[p[0] as int] == ex.survivors(symbol_chars())[ks]
                && symbol_chars().contains(pw[p[0] as int]) && ex.accepts(pw[p[0] as int])
            &&& rules.need_capital ==> pw[p[1] as int] == ex.survivors(capital_chars())[kc]
                && capital_chars().contains(pw[p[1] as int]) && ex.accepts(pw[p[1] as int])
            &&& rules.need_number ==> pw[p[2] as int] == ex.survivors(number_chars())[kn]
                && number_chars().contains(pw[p[2] as int]) && ex.accepts(pw[p[2] as int])
        }),
{
    let ex = rules.exclusions;
    let n = rules.length;
    lemma_shuffled_positions(Seq::new(n, |i: int| i as usize), p, n);
    lemma_survivors(ex, symbol_chars());
    lemma_survivors(ex, capital_chars());
    lemma_survivors(ex, number_chars());
    let log = placement_draws(rules, p, ks, kc, kn);
    assert(log[0] == RandomDraw::Shuffle { input: Seq::new(n, |i: int| i as usize), output: p });
}

/// Placing the required classes with usable draws writes one surviving
/// member of each at its own position and changes nothing else.
pub proof fn lemma_placement_applies(
    rules: PasswordRules,
    before: Seq<char>,
    p: Seq<usize>,
    ks: int,
    kc: int,
    kn: int,
)
    requires
        before.len() == rules.length,
        rules.length <= usize::MAX,
        room_for_classes(rules),
        draws_ok(rules, p, ks, kc, kn),
    ensures
        policies_applied(
            rules,
            before,
            placement(
                rules.exclusions,
                rules.need_symbol,
                rules.need_capital,
                rules.need_number,
                before,
                p,
                ks,
                kc,
                kn,
            ),
        ),
{
    let ex = rules.exclusions;
    let n = rules.length;
    lemma_shuffled_positions(Seq::new(n, |i: int| i as usize), p, n);
    lemma_survivors(ex, symbol_chars());
    lemma_survivors(ex, capital_chars());
    lemma_survivors(ex, number_chars());
    let after = placement(
        ex,
        rules.need_symbol,
        rules.need_capital,
        rules.need_number,
        before,
        p,
        ks,
        kc,
        kn,
    );
    let p0: int = if n > 0 { p[0] as int } else { 0 };
    let p1: int = if n > 1 { p[1] as int } else { 0 };
    let p2: int = if n > 2 { p[2] as int } else { 0 };
    assert(positions_ok(rules, before.len() as int, p0, p1, p2));
    assert forall|i: int| 0 <= i < before.len() implies slot_ok(
        rules,
        before,
        after,
        i,
        p0,
        p1,
        p2,
    ) by {
        if rules.need_symbol && i == p0 {
            assert(ex.survivors(symbol_chars())[ks] == after[i]);
        } else if rules.need_capital && i == p1 {
            assert(ex.survivors(capital_chars())[kc] == after[i]);
        } else if rules.need_number && i == p2 {
            assert(ex.survivors(number_chars())[kn] == after[i]);
        }
    }
}

/// A password meets the rules: it has the right length, holds no excluded
/// character, holds each required class, and every character is a base64
/// glyph unless it is a required symbol.
pub open spec fn password_meets(rules: PasswordRules, pw: Seq<char>) -> bool {
    &&& pw.len() == rules.length
    &&& forall|i: int| 0 <= i < pw.len() ==> rules.exclusions.accepts(#[trigger] pw[i])
    &&& forall|i: int|
        0 <= i < pw.len() ==> is_base64_glyph(#[trigger] pw[i]) || (rules.need_symbol
            && symbol_chars().contains(pw[i]))
    &&& rules.need_symbol ==> exists|i: int|
        0 <= i < pw.len() && symbol_chars().contains(#[trigger] pw[i])
    &&& rules.need_capital ==> exists|i: int|
        0 <= i < pw.len() && capital_chars().contains(#[trigger] pw[i])
    &&& rules.need_number ==> exists|i: int|
        0 <= i < pw.len() && number_chars().contains(#[trigger] pw[i])
}

/// The glyphs of `glyphs` from position `from` on that survive the
/// exclusions, in order: what a generator takes from its pool before the
/// pool runs out.
pub open spec fn pool_supply(rules: PasswordRules, glyphs: Seq<char>, from: int) -> Seq<char> {
    rules.exclusions.survivors(glyphs.skip(from))
}

/// The survivors of a stretch are those of its first part followed by those
/// of the rest.
pub proof fn lemma_survivors_split(ex: Exclusions, glyphs: Seq<char>, a: int, b: int)
    requires
        0 <= a <= b <= glyphs.len(),
    ensures
        ex.survivors(glyphs.skip(a)) == ex.survivors(glyphs.subrange(a, b)) + ex.survivors(
            glyphs.skip(b),
        ),
{
    let pred = |c: char| ex.accepts(c);
    assert(glyphs.skip(a) =~= glyphs.subrange(a, b) + glyphs.skip(b));
    Seq::filter_distributes_over_add(glyphs.subrange(a, b), glyphs.skip(b), pred);
}

/// Taking one more glyph of a stretch adds it to the survivors exactly when
/// it survives.
pub proof fn lemma_survivors_extend(ex: Exclusions, glyphs: Seq<char>, a: int, b: int)
    requires
        0 <= a <= b < glyphs.len(),
    ensures
        ex.survivors(glyphs.subrange(a, b + 1)) == if ex.accepts(glyphs[b]) {
            ex.survivors(glyphs.subrange(a, b)).push(glyphs[b])
        } else {
            ex.survivors(glyphs.subrange(a, b))
        },
{
    let pred = |c: char| ex.accepts(c);
    assert(glyphs.subrange(a, b + 1) =~= glyphs.subrange(a, b).push(glyphs[b]));
    glyphs.subrange(a, b).lemma_filter_push(glyphs[b], pred);
}

/// Drawing from a stream of glyphs: the stream is `rest` (what was left of
/// the pool when drawing began) followed by the pools made from `blocks`.
/// Its first `consumed` glyphs have been drawn, the pool still holds the
/// others (`pool_rest`), and `taken` are the drawn glyphs that survive the
/// exclusions.
pub open spec fn drawing_state(
    rules: PasswordRules,
    rest: Seq<char>,
    blocks: Seq<Seq<u8>>,
    consumed: int,
    pool_rest: Seq<char>,
    taken: Seq<char>,
) -> bool {
    let stream = rest + encoded_pools(blocks);
    &&& pool_blocks(blocks)
    &&& 0 <= consumed <= stream.len()
    &&& pool_rest == stream.skip(consumed)
    &&& taken == rules.exclusions.survivors(stream.take(consumed))
}

/// Positions chosen for the required classes: in range, and distinct.
pub open spec fn positions_ok(rules: PasswordRules, len: int, p0: int, p1: int, p2: int) -> bool {
    &&& rules.need_symbol ==> 0 <= p0 < len
    &&& rules.need_capital ==> 0 <= p1 < len
    &&& rules.need_number ==> 0 <= p2 < len
    &&& rules.need_symbol && rules.need_capital ==> p0 != p1
    &&& rules.need_symbol && rules.need_number ==> p0 != p2
    &&& rules.need_capital && rules.need_number ==> p1 != p2
}

/// Position `i` after the required classes were placed at `p0`, `p1`, `p2`:
/// a surviving member of the class placed there, or else the glyph that was
/// there before.
pub open spec fn slot_ok(
    rules: PasswordRules,
    before: Seq<char>,
    after: Seq<char>,
    i: int,
    p0: int,
    p1: int,
    p2: int,
) -> bool {
    if rules.need_symbol && i == p0 {
        symbol_chars().contains(after[i]) && rules.exclusions.accepts(after[i])
    } else if rules.need_capital && i == p1 {
        capital_chars().contains(after[i]) && rules.exclusions.accepts(after[i])
    } else if rules.need_number && i == p2 {
        number_chars().contains(after[i]) && rules.exclusions.accepts(after[i])
    } else {
        after[i] == before[i]
    }
}

/// `after` is `before` with one surviving member of each required class
/// written at its own position, and nothing else changed.
pub open spec fn policies_applied(rules: PasswordRules, before: Seq<char>, after: Seq<char>) -> bool {
    &&& after.len() == before.len()
    &&& exists|p0: int, p1: int, p2: int|
        #![trigger positions_ok(rules, before.len() as int, p0, p1, p2)]
        positions_ok(rules, before.len() as int, p0, p1, p2) && forall|i: int|
            0 <= i < before.len() ==> slot_ok(rules, before, after, i, p0, p1, p2)
}

/// A password that meets the rules honours every exclusion flag: no capital
/// under `-A`, no digit under `-0`, no vowel under `-v`, no ambiguous
/// character under `-B`, and none of the characters of `-r`.
pub proof fn lemma_password_honours_flags(rules: PasswordRules, pw: Seq<char>, i: int)
    requires
        password_meets(rules, pw),
        0 <= i < pw.len(),
    ensures
        rules.exclusions.no_capitals ==> !is_ascii_uppercase(pw[i]),
        rules.exclusions.no_numbers ==> !is_ascii_digit(pw[i]),
        rules.exclusions.no_vowels ==> !rules.exclusions.vowels.contains(pw[i]),
        rules.exclusions.no_ambiguous ==> !ambiguous_chars().contains(pw[i]),
        !rules.exclusions.removed.contains(pw[i]),
{
    assert(rules.exclusions.accepts(pw[i]));
}

/// Glyphs drawn from the pool that survive the exclusions, with the
/// required classes then placed, make a password that meets the rules.
pub proof fn lemma_placed_password_meets(rules: PasswordRules, drawn: Seq<char>, pw: Seq<char>)
    requires
        drawn.len() == rules.length,
        forall|i: int|
            0 <= i < drawn.len() ==> rules.exclusions.accepts(#[trigger] drawn[i])
                && is_base64_glyph(drawn[i]),
        policies_applied(rules, drawn, pw),
    ensures
        password_meets(rules, pw),
{
    let (p0, p1, p2) = choose|p0: int, p1: int, p2: int|
        #![trigger positions_ok(rules, drawn.len() as int, p0, p1, p2)]
        positions_ok(rules, drawn.len() as int, p0, p1, p2) && forall|i: int|
            0 <= i < drawn.len() ==> slot_ok(rules, drawn, pw, i, p0, p1, p2);
    assert forall|i: int| 0 <= i < pw.len() implies rules.exclusions.accepts(#[trigger] pw[i])
        && (is_base64_glyph(pw[i]) || (rules.need_symbol && symbol_chars().contains(pw[i]))) by {
        assert(slot_ok(rules, drawn, pw, i, p0, p1, p2));
        if rules.need_capital && i == p1 && !(rules.need_symbol && i == p0) {
            let k = choose|k: int| 0 <= k < 26 && capital_chars()[k] == pw[i];
            assert(is_base64_glyph(capital_chars()[k]));
        } else if rules.need_number && i == p2 && !(rules.need_symbol && i == p0) && !(
        rules.need_capital && i == p1) {
            let k = choose|k: int| 0 <= k < 10 && number_chars()[k] == pw[i];
            assert(is_base64_glyph(number_chars()[k]));
        }
    }
    if rules.need_symbol {
        assert(slot_ok(rules, drawn, pw, p0, p0, p1, p2));
        assert(symbol_chars().contains(pw[p0]));
    }
    if rules.need_capital {
        assert(slot_ok(rules, drawn, pw, p1, p0, p1, p2));
        assert(capital_chars().contains(pw[p1]));
    }
    if rules.need_number {
        assert(slot_ok(rules, drawn, pw, p2, p0, p1, p2));
        assert(number_chars().contains(pw[p2]));
    }
}

/// Rules that pass the checks leave survivors in every required class and
/// in the base64 alphabet.
pub proof fn lemma_rules_leave_survivors(rules: PasswordRules)
    requires
        rules_error(rules) is None,
    ensures
        rules.need_symbol ==> rules.exclusions.survivors(symbol_chars()).len() > 0,
        rules.need_capital ==> rules.exclusions.survivors(capital_chars()).len() > 0,
        rules.need_number ==> rules.exclusions.survivors(number_chars()).len() > 0,
        exists|c: char| is_base64_glyph(c) && rules.exclusions.accepts(c),
{
    lemma_survivors(rules.exclusions, symbol_chars());
    lemma_survivors(rules.exclusions, capital_chars());
    lemma_survivors(rules.exclusions, number_chars());
    lemma_base64_alphabet();
    let i = choose|i: int| 0 <= i < 64 && rules.exclusions.accepts(#[trigger] base64_alphabet()[i]);
    assert(is_base64_glyph(base64_alphabet()[i]));
}

/// An accepted command line asks for a length that the generators handle.
pub proof fn lemma_accepted_length_supported(args: Args, vowels: Seq<char>)
    requires
        accepted(args),
    ensures
        length_supported(rules_of(args, vowels)),
{
}

/// `-s` is a no-op: flipping it changes neither whether a command line is
/// refused, nor the rules of the passwords, nor how many are printed.
pub proof fn lemma_secure_flag_is_no_op(a: Args, vowels: Seq<char>, detected: Option<u16>)
    ensures
        ({
            let b = Args { secure: !a.secure, ..a };
            &&& command_line_error(a) == command_line_error(b)
            &&& rules_of(a, vowels) == rules_of(b, vowels)
            &&& password_count(a, detected) == password_count(b, detected)
        }),
{
}

/// A shuffle of `0..n` holds each position below `n` once.
pub proof fn lemma_shuffled_positions(before: Seq<usize>, after: Seq<usize>, n: nat)
    requires
        n <= usize::MAX,
        before =~= Seq::new(n, |i: int| i as usize),
        after.to_multiset() == before.to_multiset(),
    ensures
        after.len() == n,
        after.no_duplicates(),
        forall|k: int| 0 <= k < n ==> (#[trigger] after[k] as int) < n,
{
    broadcast use vstd::seq_lib::group_to_multiset_ensures;

    assert forall|i: int, j: int| 0 <= i < before.len() && 0 <= j < before.len() && i != j implies before[i]
        != before[j] by {
        assert(before[i] as int == i);
        assert(before[j] as int == j);
    }
    assert(before.no_duplicates());
    before.lemma_multiset_has_no_duplicates();
    after.lemma_multiset_has_no_duplicates_conv();
    after.to_multiset_ensures();
    before.to_multiset_ensures();
    assert(after.len() == before.len());
    assert forall|k: int| 0 <= k < n implies (#[trigger] after[k] as int) < n by {
        assert(after.contains(after[k]));
        assert(after.to_multiset().count(after[k]) > 0);
        assert(before.contains(after[k]));
        let j = choose|j: int| 0 <= j < before.len() && before[j] == after[k];
        assert(before[j] as int == j);
    }
}

} // verus!
