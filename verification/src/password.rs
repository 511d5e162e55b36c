//! The current generator: a ChaCha20 keystream keyed by the operating
//! system's random source, whose glyphs are zeroized in the pool as they are
//! drawn.

use vstd::prelude::*;
use rand_chacha::ChaCha20Rng;
use crate::cmdline::{Args, RpassError, DEFAULT_LENGTH};
use crate::entropy::{
    chacha_fill_bytes, chacha_from_system, chacha_index, chacha_shuffle, os_error_code,
};
use crate::glyphs::{base64_glyphs, capitals, is_base64_glyph, numbers, symbols, vowel_chars, vowels};
use crate::policy::{
    drawing_state, draws_ok, lemma_placed_password_meets, lemma_placement_applies,
    lemma_rules_leave_survivors, lemma_shuffled_positions, lemma_survivors_split,
    length_supported, password_meets, placement, policies_applied, pool_supply,
    placement_draws, room_for_classes, rules_error, rules_of, PasswordRules, Policy, RandomDraw,
};
use crate::pool::{
    base64_encoding, encoded_pools, lemma_encoded_pools_push, pool_blocks, GlyphPool, POOL_BYTES,
    POOL_GLYPHS, REFILL_LIMIT,
};
use crate::scrub::{
    push_char, reserve_text, zeroize_bytes, zeroize_char, zeroize_chars, zeroize_indices,
};

verus! {

/// Encapsulates all data needed to generate passwords. Dropping it zeroizes
/// its pool.
pub struct PasswordGenerator {
    password_length: usize,
    csprng: ChaCha20Rng,
    pool: GlyphPool,
    ensure_symbols: bool,
    ensure_capitals: bool,
    ensure_numbers: bool,
    policy: Policy,
    history: Ghost<Seq<Seq<u8>>>,
    draws: Ghost<Seq<RandomDraw>>,
}

impl PasswordGenerator {
    /// What every password of this generator meets.
    pub closed spec fn rules(&self) -> PasswordRules {
        PasswordRules {
            length: self.password_length as nat,
            need_symbol: self.ensure_symbols,
            need_capital: self.ensure_capitals,
            need_number: self.ensure_numbers,
            exclusions: self.policy@,
        }
    }

    /// The glyphs in the pool, drawn or not.
    pub closed spec fn pool_glyphs(&self) -> Seq<char> {
        self.pool.glyphs()
    }

    /// The position in the pool of the next glyph to draw.
    pub closed spec fn pool_position(&self) -> nat {
        self.pool.position()
    }

    /// The blocks of keystream bytes that the pools were made from, oldest
    /// first.
    pub closed spec fn drawn_blocks(&self) -> Seq<Seq<u8>> {
        self.history@
    }

    /// The shuffles and indices drawn from the random source to place the
    /// required classes, oldest first, each as it came back.
    pub closed spec fn random_draws(&self) -> Seq<RandomDraw> {
        self.draws@
    }

    /// The pool and the exclusions are well formed.
    pub closed spec fn parts_wf(&self) -> bool {
        &&& self.pool.wf()
        &&& self.policy.wf()
    }

    /// The pool holds `POOL_GLYPHS` glyphs and its position lies within it,
    /// its glyphs still to draw are those of the last block drawn,
    /// the rules can be met, the glyphs still to draw are base64 glyphs, and
    /// every glyph already drawn has been zeroized in the pool.
    pub open spec fn wf(&self) -> bool {
        &&& self.parts_wf()
        &&& self.pool_glyphs().len() == POOL_GLYPHS
        &&& self.pool_position() <= POOL_GLYPHS
        &&& pool_blocks(self.drawn_blocks())
        &&& self.drawn_blocks().len() > 0 ==> self.pool_glyphs().skip(self.pool_position() as int)
            == base64_encoding(self.drawn_blocks().last()).skip(self.pool_position() as int)
        &&& rules_error(self.rules()) is None
        &&& forall|i: int|
            self.pool_position() <= i < POOL_GLYPHS ==> is_base64_glyph(
                #[trigger] self.pool_glyphs()[i],
            )
        &&& forall|i: int| 0 <= i < self.pool_position() ==> #[trigger] self.pool_glyphs()[i] == '\0'
    }

    /// A generator for the rules of `args` that draws from `rng`, with a
    /// full pool; refused when the rules cannot be met.
    pub fn from_rng(args: &Args, rng: ChaCha20Rng) -> (r: Result<Self, RpassError>)
        ensures
            match r {
                Ok(g) => {
                    &&& rules_error(rules_of(*args, vowel_chars())) is None
                    &&& g.wf()
                    &&& g.pool_position() == 0
                    &&& g.drawn_blocks().len() == 1
                    &&& g.random_draws() == Seq::<RandomDraw>::empty()
                    &&& g.rules() == rules_of(*args, vowel_chars())
                },
                Err(e) => rules_error(rules_of(*args, vowel_chars())) == Some(e),
            },
    {
        let policy = Policy::from_args(args, vowels());
        let length = match args.length {
            Some(l) => l as usize,
            None => DEFAULT_LENGTH as usize,
        };
        let mut generator = PasswordGenerator {
            password_length: length,
            csprng: rng,
            pool: GlyphPool::new(),
            ensure_symbols: args.ensure_symbols,
            ensure_capitals: args.ensure_capitals,
            ensure_numbers: args.ensure_numbers,
            policy,
            history: Ghost(Seq::empty()),
            draws: Ghost(Seq::empty()),
        };
        assert(generator.rules() == rules_of(*args, vowel_chars()));
        if generator.ensure_symbols && generator.policy.excludes_all(&symbols()) {
            return Err(RpassError::SymbolsExcluded);
        }
        if generator.ensure_numbers && generator.policy.excludes_all(&numbers()) {
            return Err(RpassError::NumbersExcluded);
        }
        if generator.ensure_capitals && generator.policy.excludes_all(&capitals()) {
            return Err(RpassError::CapitalsExcluded);
        }
        if generator.policy.excludes_all(&base64_glyphs()) {
            return Err(RpassError::AllGlyphsExcluded);
        }
        generator.replenish_pool();
        Ok(generator)
    }

    /// A generator for the rules of `args`, keyed from the operating
    /// system's random source. Refused when the rules cannot be met, or when
    /// the random source fails (which depends on the machine).
    pub fn new_from_args(args: &Args) -> (r: Result<Self, RpassError>)
        ensures
            match r {
                Ok(g) => {
                    &&& rules_error(rules_of(*args, vowel_chars())) is None
                    &&& g.wf()
                    &&& g.pool_position() == 0
                    &&& g.drawn_blocks().len() == 1
                    &&& g.random_draws() == Seq::<RandomDraw>::empty()
                    &&& g.rules() == rules_of(*args, vowel_chars())
                },
                Err(e) => e is RandomSourceFailed || rules_error(
                    rules_of(*args, vowel_chars()),
                ) == Some(e),
            },
            rules_error(rules_of(*args, vowel_chars())) is Some ==> r is Err,
    {
        match chacha_from_system() {
            Ok(rng) => Self::from_rng(args, rng),
            Err(e) => Err(RpassError::RandomSourceFailed(os_error_code(e))),
        }
    }

    /// Creates a new generator from the arguments of the command line, as
    /// `parse_command_line` accepted them.
    pub fn new(args: &Args) -> (r: Result<Self, RpassError>)
        ensures
            match r {
                Ok(g) => {
                    &&& rules_error(rules_of(*args, vowel_chars())) is None
                    &&& g.wf()
                    &&& g.pool_position() == 0
                    &&& g.drawn_blocks().len() == 1
                    &&& g.random_draws() == Seq::<RandomDraw>::empty()
                    &&& g.rules() == rules_of(*args, vowel_chars())
                },
                Err(e) => e is RandomSourceFailed || rules_error(
                    rules_of(*args, vowel_chars()),
                ) == Some(e),
            },
            rules_error(rules_of(*args, vowel_chars())) is Some ==> r is Err,
    {
        Self::new_from_args(args)
    }

    /// Refills the pool with the base64 text of fresh keystream bytes, and
    /// records the bytes; they are zeroized afterwards.
    fn replenish_pool(&mut self)
        requires
            old(self).wf(),
        ensures
            final(self).wf(),
            final(self).rules() == old(self).rules(),
            final(self).pool_position() == 0,
            final(self).drawn_blocks().len() == old(self).drawn_blocks().len() + 1,
            final(self).drawn_blocks().drop_last() == old(self).drawn_blocks(),
            final(self).pool_glyphs() == base64_encoding(final(self).drawn_blocks().last()),
            final(self).random_draws() == old(self).random_draws(),
    {
        let mut byte_buf: Vec<u8> = vec![0u8; POOL_BYTES];
        chacha_fill_bytes(&mut self.csprng, &mut byte_buf);
        self.history = Ghost(self.history@.push(byte_buf@));
        self.pool.refill_from(&byte_buf);
        zeroize_bytes(&mut byte_buf);
        proof {
            assert(self.history@.drop_last() =~= old(self).history@);
            assert forall|k: int| 0 <= k < self.drawn_blocks().len() implies (
            #[trigger] self.drawn_blocks()[k]).len() == POOL_BYTES by {
                if k < old(self).drawn_blocks().len() {
                    assert(self.drawn_blocks()[k] == old(self).drawn_blocks()[k]);
                }
            }
            assert(self.pool_glyphs().skip(0) =~= self.pool_glyphs());
        }
    }

    /// Writes one surviving member of each required class at its own
    /// position: the positions are a random shuffle of the password's
    /// positions, and each member is drawn uniformly from its class's
    /// survivors; `Policy::place_required` writes them.
    fn satisfy_policies(&mut self, buf: &mut Vec<char>)
        requires
            old(self).wf(),
            room_for_classes(old(self).rules()),
            old(buf)@.len() == old(self).rules().length,
        ensures
            final(self).wf(),
            final(self).rules() == old(self).rules(),
            final(self).drawn_blocks() == old(self).drawn_blocks(),
            final(self).pool_glyphs() == old(self).pool_glyphs(),
            final(self).pool_position() == old(self).pool_position(),
            exists|p: Seq<usize>, ks: int, kc: int, kn: int|
                #![trigger placement(old(self).rules().exclusions, old(self).rules().need_symbol, old(self).rules().need_capital, old(self).rules().need_number, old(buf)@, p, ks, kc, kn)]
                draws_ok(old(self).rules(), p, ks, kc, kn) && final(self).random_draws() == old(
                    self,
                ).random_draws() + placement_draws(old(self).rules(), p, ks, kc, kn)
                    && final(buf)@ == placement(
                    old(self).rules().exclusions,
                    old(self).rules().need_symbol,
                    old(self).rules().need_capital,
                    old(self).rules().need_number,
                    old(buf)@,
                    p,
                    ks,
                    kc,
                    kn,
                ),
    {
        let ghost rules = self.rules();
        let ghost before = buf@;
        let n = self.password_length;
        let mut indices: Vec<usize> = Vec::new();
        let mut i: usize = 0;
        while i < n
            invariant
                i <= n,
                indices@ =~= Seq::new(i as nat, |j: int| j as usize),
            decreases n - i,
        {
            indices.push(i);
            i += 1;
        }
        let ghost ordered = indices@;
        chacha_shuffle(&mut self.csprng, &mut indices);
        self.draws = Ghost(
            self.draws@.push(RandomDraw::Shuffle { input: ordered, output: indices@ }),
        );
        proof {
            lemma_shuffled_positions(ordered, indices@, n as nat);
            lemma_rules_leave_survivors(rules);
        }
        let k_sym = if self.ensure_symbols {
            let cands = self.policy.candidates(&symbols());
            let k = chacha_index(&mut self.csprng, cands.len());
            self.draws = Ghost(
                self.draws@.push(RandomDraw::Index { bound: cands@.len(), value: k as nat }),
            );
            k
        } else {
            0
        };
        let k_cap = if self.ensure_capitals {
            let cands = self.policy.candidates(&capitals());
            let k = chacha_index(&mut self.csprng, cands.len());
            self.draws = Ghost(
                self.draws@.push(RandomDraw::Index { bound: cands@.len(), value: k as nat }),
            );
            k
        } else {
            0
        };
        let k_num = if self.ensure_numbers {
            let cands = self.policy.candidates(&numbers());
            let k = chacha_index(&mut self.csprng, cands.len());
            self.draws = Ghost(
                self.draws@.push(RandomDraw::Index { bound: cands@.len(), value: k as nat }),
            );
            k
        } else {
            0
        };
        self.policy.place_required(
            self.ensure_symbols,
            self.ensure_capitals,
            self.ensure_numbers,
            buf,
            &indices,
            k_sym,
            k_cap,
            k_num,
        );
        proof {
            assert(draws_ok(rules, indices@, k_sym as int, k_cap as int, k_num as int));
            assert(ordered =~= Seq::new(rules.length, |i: int| i as usize));
            assert(self.draws@ =~= old(self).draws@ + placement_draws(
                rules,
                indices@,
                k_sym as int,
                k_cap as int,
                k_num as int,
            ));
        }
        zeroize_indices(&mut indices);
        proof {
            assert forall|i: int| self.pool_position() <= i < POOL_GLYPHS implies is_base64_glyph(
                #[trigger] self.pool_glyphs()[i],
            ) by {
                assert(self.pool_glyphs()[i] == old(self).pool_glyphs()[i]);
            }
            assert forall|i: int| 0 <= i < self.pool_position() implies #[trigger] self.pool_glyphs()[i]
                == '\0' by {
                assert(self.pool_glyphs()[i] == old(self).pool_glyphs()[i]);
            }
        }
    }

    /// Generates a single password that meets the rules of the command line.
    /// Glyphs are drawn from the pool, refilled as needed, skipping those
    /// that the exclusions forbid; then a surviving member of each required
    /// class is written at its own random position. Each drawn glyph is
    /// zeroized in the pool, and the working buffers are zeroized before
    /// returning.
    pub fn generate(&mut self) -> (r: Result<String, RpassError>)
        requires
            old(self).wf(),
            length_supported(old(self).rules()),
        ensures
            final(self).wf(),
            final(self).rules() == old(self).rules(),
            old(self).drawn_blocks().len() <= final(self).drawn_blocks().len(),
            final(self).drawn_blocks().take(old(self).drawn_blocks().len() as int) == old(
                self,
            ).drawn_blocks(),
            pool_supply(old(self).rules(), old(self).pool_glyphs(), old(self).pool_position() as int).len()
                >= old(self).rules().length ==> r is Ok && final(self).drawn_blocks() == old(
                self,
            ).drawn_blocks(),
            ({
                let rules = old(self).rules();
                let rest = old(self).pool_glyphs().skip(old(self).pool_position() as int);
                let blocks = final(self).drawn_blocks().skip(old(self).drawn_blocks().len() as int);
                let stream = rest + encoded_pools(blocks);
                let final_rest = final(self).pool_glyphs().skip(final(self).pool_position() as int);
                match r {
                    Ok(pw) => {
                        &&& password_meets(rules, pw@)
                        &&& exists|p: Seq<usize>, ks: int, kc: int, kn: int|
                            #![trigger placement(rules.exclusions, rules.need_symbol, rules.need_capital, rules.need_number, rules.exclusions.survivors(stream).take(rules.length as int), p, ks, kc, kn)]
                            draws_ok(rules, p, ks, kc, kn) && final(self).random_draws() == old(
                                self,
                            ).random_draws() + placement_draws(rules, p, ks, kc, kn) && pw@ == placement(
                                rules.exclusions,
                                rules.need_symbol,
                                rules.need_capital,
                                rules.need_number,
                                rules.exclusions.survivors(stream).take(rules.length as int),
                                p,
                                ks,
                                kc,
                                kn,
                            )
                        &&& policies_applied(
                            rules,
                            rules.exclusions.survivors(stream).take(rules.length as int),
                            pw@,
                        )
                        &&& exists|k: int|
                            #[trigger] drawing_state(
                                rules,
                                rest,
                                blocks,
                                k,
                                final_rest,
                                rules.exclusions.survivors(stream).take(rules.length as int),
                            ) && (rules.length == 0 ==> k == 0) && (rules.length > 0
                                ==> rules.exclusions.accepts(stream[k - 1]))
                        &&& pool_supply(rules, old(self).pool_glyphs(), old(self).pool_position() as int).len()
                            >= rules.length ==> policies_applied(
                            rules,
                            pool_supply(
                                rules,
                                old(self).pool_glyphs(),
                                old(self).pool_position() as int,
                            ).take(rules.length as int),
                            pw@,
                        )
                    },
                    Err(e) => {
                        &&& e == RpassError::PoolExhausted
                        &&& final(self).random_draws() == old(self).random_draws()
                        &&& blocks.len() == REFILL_LIMIT
                        &&& pool_blocks(blocks)
                        &&& rules.exclusions.survivors(stream).len() < rules.length
                        &&& final_rest.len() == 0
                    },
                }
            }),
    {
        let ghost rules = self.rules();
        let ghost g0 = self.pool_glyphs();
        let ghost pos0 = self.pool_position() as int;
        let ghost base = self.drawn_blocks().len();
        let ghost mut consumed: int = 0;
        proof {
            lemma_encoded_pools_push(Seq::empty(), Seq::empty());
            assert(self.drawn_blocks().skip(base as int) =~= Seq::<Seq<u8>>::empty());
            assert(self.drawn_blocks().take(base as int) =~= self.drawn_blocks());
            assert(g0.skip(pos0) + encoded_pools(Seq::<Seq<u8>>::empty()) =~= g0.skip(pos0));
            assert(g0.skip(pos0).take(0) =~= Seq::<char>::empty());
            let s0 = g0.skip(pos0) + encoded_pools(self.drawn_blocks().skip(base as int));
            assert(s0 =~= g0.skip(pos0));
            assert(s0.skip(0) =~= s0);
            assert(s0.take(0) =~= Seq::<char>::empty());
            assert(self.pool_glyphs().skip(self.pool_position() as int) == g0.skip(pos0));
            assert(rules.exclusions.survivors(Seq::<char>::empty()) =~= Seq::<char>::empty()) by {
                reveal(Seq::filter);
            }
        }
        let mut buf: Vec<char> = Vec::new();
        let mut password = String::new();
        reserve_text(&mut password, self.password_length);
        let mut refills_left: u64 = REFILL_LIMIT;
        let mut index: usize = 0;
        while index < self.password_length
            invariant
                self.wf(),
                self.rules() == rules,
                rules == old(self).rules(),
                self.random_draws() == old(self).random_draws(),
                length_supported(rules),
                g0 == old(self).pool_glyphs(),
                g0.len() == POOL_GLYPHS,
                pos0 == old(self).pool_position(),
                0 <= pos0 <= POOL_GLYPHS,
                base == old(self).drawn_blocks().len(),
                base <= self.drawn_blocks().len(),
                self.drawn_blocks().take(base as int) == old(self).drawn_blocks(),
                self.drawn_blocks().len() - base + refills_left == REFILL_LIMIT,
                drawing_state(
                    rules,
                    g0.skip(pos0),
                    self.drawn_blocks().skip(base as int),
                    consumed,
                    self.pool_glyphs().skip(self.pool_position() as int),
                    buf@,
                ),
                self.drawn_blocks().len() > base ==> pool_supply(rules, g0, pos0).len() < rules.length,
                index == 0 ==> consumed == 0,
                password@.len() == 0,
                index <= rules.length,
                buf@.len() == index,
                index > 0 ==> consumed > 0 && rules.exclusions.accepts(
                    (g0.skip(pos0) + encoded_pools(self.drawn_blocks().skip(base as int)))[consumed
                        - 1],
                ),
                forall|j: int|
                    0 <= j < index ==> rules.exclusions.accepts(#[trigger] buf@[j])
                        && is_base64_glyph(buf@[j]),
            decreases rules.length - index,
        {
            loop
                invariant_except_break
                    self.wf(),
                    self.rules() == rules,
                    rules == old(self).rules(),
                    self.random_draws() == old(self).random_draws(),
                    length_supported(rules),
                    g0 == old(self).pool_glyphs(),
                    g0.len() == POOL_GLYPHS,
                    pos0 == old(self).pool_position(),
                    0 <= pos0 <= POOL_GLYPHS,
                    base == old(self).drawn_blocks().len(),
                    base <= self.drawn_blocks().len(),
                    self.drawn_blocks().take(base as int) == old(self).drawn_blocks(),
                    self.drawn_blocks().len() - base + refills_left == REFILL_LIMIT,
                    drawing_state(
                        rules,
                        g0.skip(pos0),
                        self.drawn_blocks().skip(base as int),
                        consumed,
                        self.pool_glyphs().skip(self.pool_position() as int),
                        buf@,
                    ),
                    self.drawn_blocks().len() > base ==> pool_supply(rules, g0, pos0).len() < rules.length,
                    buf@.len() == index,
                    index < rules.length,
                    forall|j: int|
                        0 <= j < index ==> rules.exclusions.accepts(#[trigger] buf@[j])
                            && is_base64_glyph(buf@[j]),
                ensures
                    self.wf(),
                    self.rules() == rules,
                    rules == old(self).rules(),
                    self.random_draws() == old(self).random_draws(),
                    length_supported(rules),
                    g0 == old(self).pool_glyphs(),
                    g0.len() == POOL_GLYPHS,
                    pos0 == old(self).pool_position(),
                    0 <= pos0 <= POOL_GLYPHS,
                    base == old(self).drawn_blocks().len(),
                    base <= self.drawn_blocks().len(),
                    self.drawn_blocks().take(base as int) == old(self).drawn_blocks(),
                    self.drawn_blocks().len() - base + refills_left == REFILL_LIMIT,
                    drawing_state(
                        rules,
                        g0.skip(pos0),
                        self.drawn_blocks().skip(base as int),
                        consumed,
                        self.pool_glyphs().skip(self.pool_position() as int),
                        buf@,
                    ),
                    self.drawn_blocks().len() > base ==> pool_supply(rules, g0, pos0).len() < rules.length,
                    consumed > 0,
                    buf@.len() == index + 1,
                    rules.exclusions.accepts(
                        (g0.skip(pos0) + encoded_pools(self.drawn_blocks().skip(base as int)))[consumed
                            - 1],
                    ),
                    forall|j: int|
                        0 <= j < index + 1 ==> rules.exclusions.accepts(#[trigger] buf@[j])
                            && is_base64_glyph(buf@[j]),
                decreases refills_left, POOL_GLYPHS - self.pool_position(),
            {
                if self.pool.is_exhausted() {
                    let ghost blocks = self.drawn_blocks().skip(base as int);
                    let ghost total = g0.skip(pos0) + encoded_pools(blocks);
                    proof {
                        assert(self.pool_glyphs().skip(self.pool_position() as int).len() == 0);
                        assert(consumed == total.len());
                        assert(total.take(consumed) =~= total);
                        if blocks.len() == 0 {
                            assert(total =~= g0.skip(pos0));
                        }
                    }
                    if refills_left == 0 {
                        zeroize_chars(&mut buf);
                        return Err(RpassError::PoolExhausted);
                    }
                    refills_left -= 1;
                    let ghost prior = self.drawn_blocks();
                    self.replenish_pool();
                    proof {
                        let b = self.drawn_blocks().last();
                        assert(self.drawn_blocks() =~= prior.push(b));
                        assert(self.drawn_blocks().skip(base as int) =~= blocks.push(b));
                        assert(self.drawn_blocks().take(base as int) =~= prior.take(base as int));
                        assert(b.len() == POOL_BYTES);
                        lemma_encoded_pools_push(blocks, b);
                        let next = g0.skip(pos0) + encoded_pools(blocks.push(b));
                        assert(next =~= total + base64_encoding(b));
                        assert(next.skip(consumed) =~= base64_encoding(b));
                        assert(self.pool_glyphs().skip(0) =~= self.pool_glyphs());
                        assert(next.take(consumed) =~= total.take(consumed));
                        assert(pool_blocks(blocks.push(b))) by {
                            assert forall|k: int| 0 <= k < blocks.push(b).len() implies (
                            #[trigger] blocks.push(b)[k]).len() == POOL_BYTES by {
                                if k < blocks.len() {
                                    assert(blocks.push(b)[k] == blocks[k]);
                                }
                            }
                        }
                    }
                }
                let ghost total = g0.skip(pos0) + encoded_pools(self.drawn_blocks().skip(base as int));
                let ghost before = self.pool_glyphs();
                let ghost at = self.pool_position() as int;
                let mut ch = self.pool.draw_and_scrub();
                proof {
                    assert(is_base64_glyph(before[at]));
                    assert(before.skip(at)[0] == before[at]);
                    assert(before.skip(at).len() > 0);
                    assert(consumed < total.len());
                    assert(total.skip(consumed)[0] == total[consumed]);
                    assert(self.pool_glyphs().skip(self.pool_position() as int) =~= before.skip(at).skip(1));
                    assert(total.skip(consumed + 1) =~= total.skip(consumed).skip(1));
                    assert(total.take(consumed + 1) =~= total.take(consumed).push(total[consumed]));
                    total.take(consumed).lemma_filter_push(total[consumed], |c: char| rules.exclusions.accepts(c));
                    if self.drawn_blocks().len() > 0 {
                        let enc = base64_encoding(self.drawn_blocks().last());
                        assert(before.skip(at) == enc.skip(at));
                        assert(self.pool_glyphs().skip(at + 1) =~= enc.skip(at + 1)) by {
                            assert(before.skip(at).skip(1) =~= before.skip(at + 1));
                            assert(enc.skip(at).skip(1) =~= enc.skip(at + 1));
                        }
                    }
                    consumed = consumed + 1;
                }
                if self.policy.filter(ch) {
                    buf.push(ch);
                    break ;
                }
                zeroize_char(&mut ch);
            }
            index += 1;
        }
        let ghost drawn = buf@;
        let ghost blocks = self.drawn_blocks().skip(base as int);
        let ghost total = g0.skip(pos0) + encoded_pools(blocks);
        proof {
            lemma_survivors_split(rules.exclusions, total, 0, consumed);
            assert(total.skip(0) =~= total);
            assert(total.subrange(0, consumed) =~= total.take(consumed));
            assert(rules.exclusions.survivors(total).take(rules.length as int) =~= drawn);
            if blocks.len() == 0 {
                assert(total =~= g0.skip(pos0));
            }
            if self.drawn_blocks().len() == base {
                assert(self.drawn_blocks() =~= self.drawn_blocks().take(base as int));
            }
        }
        let ghost pool_after = self.pool_glyphs().skip(self.pool_position() as int);
        self.satisfy_policies(&mut buf);
        proof {
            let (p, ks, kc, kn) = choose|p: Seq<usize>, ks: int, kc: int, kn: int|
                #![trigger placement(rules.exclusions, rules.need_symbol, rules.need_capital, rules.need_number, drawn, p, ks, kc, kn)]
                draws_ok(rules, p, ks, kc, kn) && self.random_draws() == old(self).random_draws()
                    + placement_draws(rules, p, ks, kc, kn) && buf@ == placement(
                    rules.exclusions,
                    rules.need_symbol,
                    rules.need_capital,
                    rules.need_number,
                    drawn,
                    p,
                    ks,
                    kc,
                    kn,
                );
            lemma_placement_applies(rules, drawn, p, ks, kc, kn);
            lemma_placed_password_meets(rules, drawn, buf@);
            assert(drawing_state(rules, g0.skip(pos0), blocks, consumed, pool_after, drawn));
            assert(self.drawn_blocks().skip(base as int) == blocks);
            assert(self.pool_glyphs().skip(self.pool_position() as int) == pool_after);
            assert(rules.length == 0 ==> consumed == 0);
            assert(rules.length > 0 ==> rules.exclusions.accepts(total[consumed - 1]));
            assert(drawing_state(
                rules,
                g0.skip(pos0),
                self.drawn_blocks().skip(base as int),
                consumed,
                self.pool_glyphs().skip(self.pool_position() as int),
                rules.exclusions.survivors(total).take(rules.length as int),
            ));
        }
        let mut k: usize = 0;
        while k < buf.len()
            invariant
                k <= buf@.len(),
                buf@.len() == rules.length,
                rules.length <= 43,
                password@ =~= buf@.take(k as int),
            decreases buf@.len() - k,
        {
            push_char(&mut password, buf[k]);
            k += 1;
        }
        assert(buf@.take(buf@.len() as int) =~= buf@);
        assert(password@ == buf@);
        zeroize_chars(&mut buf);
        Ok(password)
    }

    /// The glyph held at position `i` of the pool, drawn or not.
    pub fn pool_glyph(&self, i: usize) -> (c: char)
        requires
            self.wf(),
            i < POOL_GLYPHS,
        ensures
            c == self.pool_glyphs()[i as int],
    {
        self.pool.glyph(i)
    }

    /// The position in the pool of the next glyph to draw.
    pub fn pool_next(&self) -> (n: usize)
        ensures
            n == self.pool_position(),
    {
        self.pool.next_position()
    }

    /// Zeroizes the pool. The pool is then exhausted, so a later password
    /// starts from fresh keystream.
    pub fn scrub(&mut self)
        requires
            old(self).wf(),
        ensures
            final(self).wf(),
            final(self).rules() == old(self).rules(),
            final(self).pool_glyphs() == Seq::new(POOL_GLYPHS as nat, |i: int| '\0'),
            final(self).drawn_blocks() == old(self).drawn_blocks(),
            final(self).random_draws() == old(self).random_draws(),
    {
        self.pool.scrub();
        proof {
            if self.drawn_blocks().len() > 0 {
                let last = self.drawn_blocks().last();
                assert(last.len() == POOL_BYTES);
                assert(base64_encoding(last).len() == POOL_GLYPHS);
                assert(base64_encoding(last).skip(POOL_GLYPHS as int) =~= Seq::<char>::empty());
                assert(self.pool_glyphs().skip(POOL_GLYPHS as int) =~= Seq::<char>::empty());
            }
        }
    }
}

impl Drop for PasswordGenerator {
    /// Zeroizes the pool, so that no glyph outlives the generator.
    fn drop(&mut self)
        opens_invariants none
        no_unwind
    {
        self.pool.scrub();
    }
}

} // verus!
