//! The reading aligner: matches a kanji spelling against a full kana
//! pronunciation and produces the annotated `kanji[kana]` display form.
//!
//! The spelling is cut into blocks (runs of characters).  Each block either
//! carries, per source character, a list of candidate readings, or stands for
//! itself.  An alignment assigns each block the slice of the pronunciation it
//! consumes; at most one block (a designated "wildcard") may consume an
//! arbitrary nonempty slice.  The search tries wildcard positions left to
//! right and, inside one attempt, candidate readings in listed order with the
//! wildcard taking the longest slice first, so the result is deterministic.

use vstd::prelude::*;
use crate::text::{sub_chars, str_to_chars, chars_to_string};
use crate::japanese::{is_body_char, is_space_char, body_run, spec_strip_furigana, run_match, run_kanji, run_kana, run_len};

verus! {

/// The alternatives of one source character, as mathematical sequences.
pub open spec fn alts_views(u: Seq<Vec<char>>) -> Seq<Seq<char>> {
    u.map_values(|a: Vec<char>| a@)
}

/// The units of one block, as mathematical sequences.
pub open spec fn units_views(us: Seq<Vec<Vec<char>>>) -> Seq<Seq<Seq<char>>> {
    us.map_values(|u: Vec<Vec<char>>| alts_views(u@))
}

/// A capture list, as mathematical sequences.
pub open spec fn cap_views(cs: Seq<Vec<char>>) -> Seq<Seq<char>> {
    cs.map_values(|c: Vec<char>| c@)
}

/// One aligner block: the run of source text it covers, whether that run is
/// made of characters with candidate readings, and one alternatives list per
/// source character.
pub struct Block {
    pub text: Vec<char>,
    pub is_kanji: bool,
    pub units: Vec<Vec<Vec<char>>>,
}

/// The mathematical image of a [`Block`].
pub ghost struct BlockV {
    pub text: Seq<char>,
    pub is_kanji: bool,
    pub units: Seq<Seq<Seq<char>>>,
}

impl View for Block {
    type V = BlockV;

    open spec fn view(&self) -> BlockV {
        BlockV { text: self.text@, is_kanji: self.is_kanji, units: units_views(self.units@) }
    }
}

pub open spec fn views(bs: Seq<Block>) -> Seq<BlockV> {
    bs.map_values(|b: Block| b@)
}

/// Units `ui..` produce exactly `c` when each unit in turn contributes the
/// alternative named by the corresponding entry of `ch`.
pub open spec fn units_take(us: Seq<Seq<Seq<char>>>, ui: int, ch: Seq<int>, c: Seq<char>) -> bool
    decreases us.len() - ui,
{
    if ui < 0 || ui > us.len() {
        false
    } else if ui == us.len() {
        ch.len() == 0 && c.len() == 0
    } else {
        &&& ch.len() >= 1
        &&& 0 <= ch[0] < us[ui].len()
        &&& us[ui][ch[0]].len() <= c.len()
        &&& c.subrange(0, us[ui][ch[0]].len() as int) == us[ui][ch[0]]
        &&& units_take(us, ui + 1, ch.drop_first(), c.skip(us[ui][ch[0]].len() as int))
    }
}

/// Blocks `bi..` consume exactly the rest of `kana` from `pos` on, each block
/// receiving one capture chosen by the corresponding choice list; the block
/// before position `wi` (if any) is the wildcard and may take any nonempty
/// slice.
pub open spec fn plan_match(
    blocks: Seq<BlockV>,
    bi: int,
    caps: Seq<Seq<char>>,
    chs: Seq<Seq<int>>,
    kana: Seq<char>,
    pos: int,
    wi: int,
) -> bool
    decreases blocks.len() - bi,
{
    if bi < 0 || bi > blocks.len() {
        false
    } else if bi == blocks.len() {
        caps.len() == 0 && chs.len() == 0 && pos == kana.len()
    } else {
        &&& caps.len() >= 1
        &&& chs.len() >= 1
        &&& 0 <= pos
        &&& pos + caps[0].len() <= kana.len()
        &&& kana.subrange(pos, pos + caps[0].len()) == caps[0]
        &&& (if bi + 1 == wi {
            caps[0].len() >= 1
        } else {
            units_take(blocks[bi].units, 0, chs[0], caps[0])
        })
        &&& plan_match(blocks, bi + 1, caps.drop_first(), chs.drop_first(), kana, pos
            + caps[0].len(), wi)
    }
}

/// Some assignment of captures to blocks `bi..` reproduces the rest of `kana`.
pub open spec fn blocks_matchable(
    blocks: Seq<BlockV>,
    bi: int,
    kana: Seq<char>,
    pos: int,
    wi: int,
) -> bool {
    exists|caps: Seq<Seq<char>>, chs: Seq<Seq<int>>|
        plan_match(blocks, bi, caps, chs, kana, pos, wi)
}

/// Units `ui..` of block `bi` consume `c` at `pos` and the following blocks
/// consume the rest of `kana`.
pub open spec fn tail_match(
    blocks: Seq<BlockV>,
    bi: int,
    ui: int,
    c: Seq<char>,
    ch: Seq<int>,
    caps: Seq<Seq<char>>,
    chs: Seq<Seq<int>>,
    kana: Seq<char>,
    pos: int,
    wi: int,
) -> bool {
    &&& 0 <= bi < blocks.len()
    &&& units_take(blocks[bi].units, ui, ch, c)
    &&& 0 <= pos
    &&& pos + c.len() <= kana.len()
    &&& kana.subrange(pos, pos + c.len()) == c
    &&& plan_match(blocks, bi + 1, caps, chs, kana, pos + c.len(), wi)
}

/// Some way of finishing block `bi` from unit `ui` on matches the rest of `kana`.
pub open spec fn units_matchable(
    blocks: Seq<BlockV>,
    bi: int,
    ui: int,
    kana: Seq<char>,
    pos: int,
    wi: int,
) -> bool {
    exists|c: Seq<char>, ch: Seq<int>, caps: Seq<Seq<char>>, chs: Seq<Seq<int>>|
        tail_match(blocks, bi, ui, c, ch, caps, chs, kana, pos, wi)
}

/// Does the slice of `kana` at `pos` start with `alt`?
fn slice_starts_at(kana: &Vec<char>, pos: usize, alt: &Vec<char>) -> (r: bool)
    requires
        pos <= kana@.len(),
    ensures
        r == (pos + alt@.len() <= kana@.len() && kana@.subrange(
            pos as int,
            pos as int + alt@.len() as int,
        ) == alt@),
{
    let n: usize = kana.len();
    let m: usize = alt.len();
    if n - pos < m {
        assert(pos + alt@.len() > kana@.len());
        return false;
    }
    let mut i: usize = 0;
    while i < m
        invariant
            pos + m <= n,
            n == kana@.len(),
            m == alt@.len(),
            i <= m,
            kana@.subrange(pos as int, pos as int + i as int) == alt@.subrange(0, i as int),
        decreases m - i,
    {
        if kana[pos + i] != alt[i] {
            assert(kana@.subrange(pos as int, pos as int + alt@.len() as int) != alt@) by {
                assert(kana@.subrange(pos as int, pos as int + alt@.len() as int)[i as int]
                    != alt@[i as int]);
            };
            return false;
        }
        i = i + 1;
        assert(kana@.subrange(pos as int, pos as int + i as int) =~= alt@.subrange(0, i as int));
    }
    assert(kana@.subrange(pos as int, pos as int + alt@.len() as int) =~= alt@);
    true
}

/// Puts `first` in front of the captures in `rest`.
fn caps_cons(first: Vec<char>, rest: Vec<Vec<char>>) -> (out: Vec<Vec<char>>)
    ensures
        cap_views(out@) == seq![first@] + cap_views(rest@),
        out@.len() == rest@.len() + 1,
{
    let ghost firstv = first@;
    let ghost restv0 = rest@;
    let mut out: Vec<Vec<char>> = Vec::new();
    out.push(first);
    let mut tail = rest;
    out.append(&mut tail);
    assert(cap_views(out@) =~= seq![firstv] + cap_views(restv0));
    out
}

/// Matches units `ui..` of block `bi`, then the following blocks, against
/// `kana` from `pos` on.  On success the first returned string is what those
/// units consumed and the rest are the captures of the following blocks.
#[verifier::rlimit(100)]
#[verifier::spinoff_prover]
fn match_units(
    blocks: &Vec<Block>,
    bi: usize,
    ui: usize,
    kana: &Vec<char>,
    pos: usize,
    wi: usize,
) -> (res: Option<Vec<Vec<char>>>)
    requires
        bi < blocks@.len(),
        ui <= views(blocks@)[bi as int].units.len(),
        pos <= kana@.len(),
        wi <= blocks@.len(),
    ensures
        res is Some <==> units_matchable(
            views(blocks@),
            bi as int,
            ui as int,
            kana@,
            pos as int,
            wi as int,
        ),
        res is Some ==> cap_views(res->0@).len() == blocks@.len() - bi,
        res is Some ==> exists|ch: Seq<int>, chs: Seq<Seq<int>>|
            tail_match(
                views(blocks@),
                bi as int,
                ui as int,
                cap_views(res->0@)[0],
                ch,
                cap_views(res->0@).drop_first(),
                chs,
                kana@,
                pos as int,
                wi as int,
            ),
        res is None ==> spec_units_try(
            views(blocks@),
            bi as int,
            ui as int,
            kana@,
            pos as int,
            wi as int,
        ) is None,
        res is Some ==> spec_units_try(
            views(blocks@),
            bi as int,
            ui as int,
            kana@,
            pos as int,
            wi as int,
        ) == Some(cap_views(res->0@)),
    decreases blocks@.len() - bi, views(blocks@)[bi as int].units.len() - ui,
{
    let ghost bv = views(blocks@);
    let nb: usize = blocks.len();
    let nk: usize = kana.len();
    let nunits: usize = blocks[bi].units.len();
    assert(nunits == bv[bi as int].units.len());
    if ui == nunits {
        let rest = match_blocks(blocks, bi + 1, kana, pos, wi);
        match rest {
            Some(caps) => {
                let ghost capsv = cap_views(caps@);
                let out = caps_cons(Vec::new(), caps);
                proof {
                    let outv = cap_views(out@);
                    assert(outv[0] =~= Seq::<char>::empty());
                    assert(outv.drop_first() =~= capsv);
                    let bip = bi as int + 1;
                    let chs = choose|chs: Seq<Seq<int>>|
                        plan_match(bv, bip, capsv, chs, kana@, pos as int, wi as int);
                    assert(kana@.subrange(pos as int, pos as int) =~= Seq::<char>::empty());
                    assert(tail_match(
                        bv,
                        bi as int,
                        ui as int,
                        Seq::<char>::empty(),
                        Seq::<int>::empty(),
                        capsv,
                        chs,
                        kana@,
                        pos as int,
                        wi as int,
                    ));
                    assert(tail_match(
                        views(blocks@),
                        bi as int,
                        ui as int,
                        outv[0],
                        Seq::<int>::empty(),
                        outv.drop_first(),
                        chs,
                        kana@,
                        pos as int,
                        wi as int,
                    ));
                    assert(exists|ch0: Seq<int>, chs0: Seq<Seq<int>>|
                        tail_match(
                            views(blocks@),
                            bi as int,
                            ui as int,
                            cap_views(out@)[0],
                            ch0,
                            cap_views(out@).drop_first(),
                            chs0,
                            kana@,
                            pos as int,
                            wi as int,
                        ));
                }
                let result = Some(out);
                proof {
                    // skolemize the witness again for the returned value
                    let (chw, chsw) = choose|ch0: Seq<int>, chs0: Seq<Seq<int>>|
                        tail_match(
                            views(blocks@),
                            bi as int,
                            ui as int,
                            cap_views(result->0@)[0],
                            ch0,
                            cap_views(result->0@).drop_first(),
                            chs0,
                            kana@,
                            pos as int,
                            wi as int,
                        );
                    assert(cap_views(result->0@) =~= seq![Seq::<char>::empty()] + cap_views(
                        caps@,
                    ));
                    assert(spec_units_try(bv, bi as int, ui as int, kana@, pos as int, wi as int)
                        == Some(cap_views(result->0@)));
                }
                result
            },
            None => {
                proof {
                    if units_matchable(bv, bi as int, ui as int, kana@, pos as int, wi as int) {
                        let (c, ch, caps, chs) = choose|
                            c: Seq<char>,
                            ch: Seq<int>,
                            caps: Seq<Seq<char>>,
                            chs: Seq<Seq<int>>,
                        |
                            tail_match(
                                bv,
                                bi as int,
                                ui as int,
                                c,
                                ch,
                                caps,
                                chs,
                                kana@,
                                pos as int,
                                wi as int,
                            );
                        assert(c.len() == 0);
                        assert(blocks_matchable(bv, bi as int + 1, kana@, pos as int, wi as int));
                        assert(false);
                    }
                    assert(spec_units_try(bv, bi as int, ui as int, kana@, pos as int, wi as int)
                        is None);
                }
                None
            },
        }
    } else {
        let nalts: usize = blocks[bi].units[ui].len();
        assert(nalts == bv[bi as int].units[ui as int].len());
        let mut k: usize = 0;
        while k < nalts
            invariant
                bi < blocks@.len(),
                ui < nunits,
                nunits == bv[bi as int].units.len(),
                pos <= kana@.len(),
                nk == kana@.len(),
                wi <= blocks@.len(),
                bv == views(blocks@),
                nalts == bv[bi as int].units[ui as int].len(),
                k <= nalts,
                spec_alt_try(bv, bi as int, ui as int, 0, kana@, pos as int, wi as int)
                    == spec_alt_try(bv, bi as int, ui as int, k as int, kana@, pos as int, wi as int),
                forall|c: Seq<char>, ch: Seq<int>, caps: Seq<Seq<char>>, chs: Seq<Seq<int>>|
                    #[trigger] tail_match(
                        bv,
                        bi as int,
                        ui as int,
                        c,
                        ch,
                        caps,
                        chs,
                        kana@,
                        pos as int,
                        wi as int,
                    ) ==> ch.len() >= 1 && ch[0] >= k,
            decreases nalts - k,
        {
            let alt = &blocks[bi].units[ui][k];
            assert(alt@ == bv[bi as int].units[ui as int][k as int]);
            let fits = slice_starts_at(kana, pos, alt);
            if fits {
                let cap_len: usize = alt.len();
                let sub = match_units(blocks, bi, ui + 1, kana, pos + cap_len, wi);
                match sub {
                    Some(caps) => {
                        let ghost capsv = cap_views(caps@);
                        let mut caps = caps;
                        let first = caps.remove(0);
                        let mut joined = alt.clone();
                        let mut firstm = first;
                        joined.append(&mut firstm);
                        let ghost joinedv = joined@;
                        let out = caps_cons(joined, caps);
                        proof {
                            let outv = cap_views(out@);
                            assert(outv[0] == joinedv);
                            assert(outv.drop_first() =~= capsv.drop_first());
                            assert(joinedv == alt@ + capsv[0]);
                            let uip = ui as int + 1;
                            let posp = pos as int + cap_len as int;
                            let capsv0 = capsv[0];
                            let capsvr = capsv.drop_first();
                            let (ch_sub, chs_sub) = choose|ch: Seq<int>, chs: Seq<Seq<int>>|
                                tail_match(
                                    bv,
                                    bi as int,
                                    uip,
                                    capsv0,
                                    ch,
                                    capsvr,
                                    chs,
                                    kana@,
                                    posp,
                                    wi as int,
                                );
                            let ch = seq![k as int] + ch_sub;
                            assert(units_take(bv[bi as int].units, ui as int, ch, joinedv)) by {
                                assert(ch.drop_first() =~= ch_sub);
                                assert(joinedv.subrange(0, alt@.len() as int) =~= alt@);
                                assert(joinedv.skip(alt@.len() as int) =~= capsv[0]);
                            };
                            assert(kana@.subrange(pos as int, pos as int + joinedv.len() as int)
                                =~= joinedv) by {
                                assert(kana@.subrange(pos as int, pos as int + alt@.len() as int)
                                    == alt@);
                                assert(kana@.subrange(
                                    pos as int + cap_len as int,
                                    pos as int + cap_len as int + capsv[0].len() as int,
                                ) == capsv[0]);
                            };
                            assert(tail_match(
                                bv,
                                bi as int,
                                ui as int,
                                joinedv,
                                ch,
                                capsv.drop_first(),
                                chs_sub,
                                kana@,
                                pos as int,
                                wi as int,
                            ));
                            assert(tail_match(
                                views(blocks@),
                                bi as int,
                                ui as int,
                                outv[0],
                                ch,
                                outv.drop_first(),
                                chs_sub,
                                kana@,
                                pos as int,
                                wi as int,
                            ));
                            assert(exists|ch0: Seq<int>, chs0: Seq<Seq<int>>|
                                tail_match(
                                    views(blocks@),
                                    bi as int,
                                    ui as int,
                                    cap_views(out@)[0],
                                    ch0,
                                    cap_views(out@).drop_first(),
                                    chs0,
                                    kana@,
                                    pos as int,
                                    wi as int,
                                ));
                        }
                        let result = Some(out);
                        proof {
                            assert(cap_views(result->0@) =~= cap_views(out@));
                            assert(exists|ch0: Seq<int>, chs0: Seq<Seq<int>>|
                                tail_match(
                                    views(blocks@),
                                    bi as int,
                                    ui as int,
                                    cap_views(result->0@)[0],
                                    ch0,
                                    cap_views(result->0@).drop_first(),
                                    chs0,
                                    kana@,
                                    pos as int,
                                    wi as int,
                                ));
                            assert(spec_alt_try(
                                bv,
                                bi as int,
                                ui as int,
                                k as int,
                                kana@,
                                pos as int,
                                wi as int,
                            ) == Some(cap_views(result->0@))) by {
                                assert(cap_views(result->0@) =~= seq![
                                    bv[bi as int].units[ui as int][k as int] + capsv[0],
                                ] + capsv.drop_first());
                            };
                            assert(spec_units_try(
                                bv,
                                bi as int,
                                ui as int,
                                kana@,
                                pos as int,
                                wi as int,
                            ) == Some(cap_views(result->0@)));
                        }
                        return result;
                    },
                    None => {
                        proof {
                            assert forall|
                                c: Seq<char>,
                                ch: Seq<int>,
                                caps: Seq<Seq<char>>,
                                chs: Seq<Seq<int>>,
                            |
                                #[trigger] tail_match(
                                    bv,
                                    bi as int,
                                    ui as int,
                                    c,
                                    ch,
                                    caps,
                                    chs,
                                    kana@,
                                    pos as int,
                                    wi as int,
                                ) implies ch.len() >= 1 && ch[0] >= k + 1 by {
                                if ch[0] == k {
                                    let c2 = c.skip(cap_len as int);
                                    let ch2 = ch.drop_first();
                                    assert(c.subrange(0, cap_len as int) == alt@);
                                    assert(kana@.subrange(
                                        pos as int + cap_len as int,
                                        pos as int + c.len() as int,
                                    ) =~= c2) by {
                                        assert(kana@.subrange(
                                            pos as int,
                                            pos as int + c.len() as int,
                                        ) == c);
                                    };
                                    assert(tail_match(
                                        bv,
                                        bi as int,
                                        ui as int + 1,
                                        c2,
                                        ch2,
                                        caps,
                                        chs,
                                        kana@,
                                        pos as int + cap_len as int,
                                        wi as int,
                                    ));
                                    assert(units_matchable(
                                        bv,
                                        bi as int,
                                        ui as int + 1,
                                        kana@,
                                        pos as int + cap_len as int,
                                        wi as int,
                                    ));
                                    assert(false);
                                }
                            };
                            assert(spec_alt_try(
                                bv,
                                bi as int,
                                ui as int,
                                k as int,
                                kana@,
                                pos as int,
                                wi as int,
                            ) == spec_alt_try(
                                bv,
                                bi as int,
                                ui as int,
                                k as int + 1,
                                kana@,
                                pos as int,
                                wi as int,
                            ));
                        }
                    },
                }
            } else {
                proof {
                    assert forall|
                        c: Seq<char>,
                        ch: Seq<int>,
                        caps: Seq<Seq<char>>,
                        chs: Seq<Seq<int>>,
                    |
                        #[trigger] tail_match(
                            bv,
                            bi as int,
                            ui as int,
                            c,
                            ch,
                            caps,
                            chs,
                            kana@,
                            pos as int,
                            wi as int,
                        ) implies ch.len() >= 1 && ch[0] >= k + 1 by {
                        if ch[0] == k {
                            assert(c.subrange(0, alt@.len() as int) == alt@);
                            assert(kana@.subrange(pos as int, pos as int + alt@.len() as int)
                                =~= alt@) by {
                                assert(kana@.subrange(pos as int, pos as int + c.len() as int)
                                    == c);
                                assert(forall|q: int|
                                    0 <= q < alt@.len() ==> kana@[pos + q] == c[q]);
                            };
                            assert(false);
                        }
                    };
                    assert(spec_alt_try(
                        bv,
                        bi as int,
                        ui as int,
                        k as int,
                        kana@,
                        pos as int,
                        wi as int,
                    ) == spec_alt_try(
                        bv,
                        bi as int,
                        ui as int,
                        k as int + 1,
                        kana@,
                        pos as int,
                        wi as int,
                    ));
                }
            }
            k = k + 1;
        }
        proof {
            if units_matchable(bv, bi as int, ui as int, kana@, pos as int, wi as int) {
                let (c, ch, caps, chs) = choose|
                    c: Seq<char>,
                    ch: Seq<int>,
                    caps: Seq<Seq<char>>,
                    chs: Seq<Seq<int>>,
                |
                    tail_match(
                        bv,
                        bi as int,
                        ui as int,
                        c,
                        ch,
                        caps,
                        chs,
                        kana@,
                        pos as int,
                        wi as int,
                    );
                assert(ch[0] < nalts);
                assert(false);
            }
            assert(spec_alt_try(bv, bi as int, ui as int, nalts as int, kana@, pos as int, wi as int)
                is None);
            assert(spec_units_try(bv, bi as int, ui as int, kana@, pos as int, wi as int)
                is None);
        }
        None
    }
}

/// Matches blocks `bi..` against `kana` from `pos` on and returns their
/// captures, trying a wildcard block's slices longest first.
#[verifier::rlimit(100)]
#[verifier::spinoff_prover]
fn match_blocks(
    blocks: &Vec<Block>,
    bi: usize,
    kana: &Vec<char>,
    pos: usize,
    wi: usize,
) -> (res: Option<Vec<Vec<char>>>)
    requires
        bi <= blocks@.len(),
        pos <= kana@.len(),
        wi <= blocks@.len(),
    ensures
        res is Some <==> blocks_matchable(views(blocks@), bi as int, kana@, pos as int, wi as int),
        res is Some ==> cap_views(res->0@).len() == blocks@.len() - bi,
        res is Some ==> exists|chs: Seq<Seq<int>>|
            plan_match(
                views(blocks@),
                bi as int,
                cap_views(res->0@),
                chs,
                kana@,
                pos as int,
                wi as int,
            ),
        res is None ==> spec_blocks_try(views(blocks@), bi as int, kana@, pos as int, wi as int)
            is None,
        res is Some ==> spec_blocks_try(views(blocks@), bi as int, kana@, pos as int, wi as int)
            == Some(cap_views(res->0@)),
    decreases blocks@.len() - bi, views(blocks@)[bi as int].units.len() + 1,
{
    let ghost bv = views(blocks@);
    let nb: usize = blocks.len();
    let nk: usize = kana.len();
    if bi == nb {
        if pos == nk {
            let out: Vec<Vec<char>> = Vec::new();
            proof {
                assert(cap_views(out@) =~= Seq::<Seq<char>>::empty());
                assert(plan_match(
                    bv,
                    bi as int,
                    Seq::<Seq<char>>::empty(),
                    Seq::<Seq<int>>::empty(),
                    kana@,
                    pos as int,
                    wi as int,
                ));
                assert(plan_match(
                    views(blocks@),
                    bi as int,
                    cap_views(out@),
                    Seq::<Seq<int>>::empty(),
                    kana@,
                    pos as int,
                    wi as int,
                ));
                assert(spec_blocks_try(bv, bi as int, kana@, pos as int, wi as int) == Some(
                    cap_views(out@),
                ));
            }
            Some(out)
        } else {
            proof {
                if blocks_matchable(bv, bi as int, kana@, pos as int, wi as int) {
                    let (caps, chs) = choose|caps: Seq<Seq<char>>, chs: Seq<Seq<int>>|
                        plan_match(bv, bi as int, caps, chs, kana@, pos as int, wi as int);
                    assert(false);
                }
                assert(spec_blocks_try(bv, bi as int, kana@, pos as int, wi as int) is None);
            }
            None
        }
    } else if bi + 1 == wi {
        let avail: usize = nk - pos;
        let mut len: usize = avail;
        while len >= 1
            invariant
                bi < blocks@.len(),
                pos <= kana@.len(),
                wi <= blocks@.len(),
                bi + 1 == wi,
                nk == kana@.len(),
                avail == nk - pos,
                len <= avail,
                bv == views(blocks@),
                spec_wild_try(bv, bi as int, avail as int, kana@, pos as int, wi as int)
                    == spec_wild_try(bv, bi as int, len as int, kana@, pos as int, wi as int),
                forall|caps: Seq<Seq<char>>, chs: Seq<Seq<int>>|
                    #[trigger] plan_match(bv, bi as int, caps, chs, kana@, pos as int, wi as int)
                        ==> caps.len() >= 1 && caps[0].len() <= len,
            decreases len,
        {
            let sub = match_blocks(blocks, bi + 1, kana, pos + len, wi);
            match sub {
                Some(caps) => {
                    let ghost capsv = cap_views(caps@);
                    let cap = sub_chars(kana, pos, pos + len);
                    let ghost capv = cap@;
                    let out = caps_cons(cap, caps);
                    proof {
                        let outv = cap_views(out@);
                        assert(outv[0] == capv);
                        assert(outv.drop_first() =~= capsv);
                        let bip = bi as int + 1;
                        let posp = pos as int + len as int;
                        let chs_sub = choose|chs: Seq<Seq<int>>|
                            plan_match(bv, bip, capsv, chs, kana@, posp, wi as int);
                        let chs = seq![Seq::<int>::empty()] + chs_sub;
                        assert(chs.drop_first() =~= chs_sub);
                        assert(plan_match(bv, bi as int, outv, chs, kana@, pos as int, wi as int));
                        assert(plan_match(
                            views(blocks@),
                            bi as int,
                            cap_views(out@),
                            chs,
                            kana@,
                            pos as int,
                            wi as int,
                        ));
                        assert(exists|chs0: Seq<Seq<int>>|
                            plan_match(
                                views(blocks@),
                                bi as int,
                                cap_views(out@),
                                chs0,
                                kana@,
                                pos as int,
                                wi as int,
                            ));
                    }
                    let result = Some(out);
                    proof {
                        assert(cap_views(result->0@) =~= cap_views(out@));
                        let chs0w = choose|chs0: Seq<Seq<int>>|
                            plan_match(
                                views(blocks@),
                                bi as int,
                                cap_views(out@),
                                chs0,
                                kana@,
                                pos as int,
                                wi as int,
                            );
                        assert(plan_match(
                            views(blocks@),
                            bi as int,
                            cap_views(result->0@),
                            chs0w,
                            kana@,
                            pos as int,
                            wi as int,
                        ));
                        assert(exists|chs0: Seq<Seq<int>>|
                            plan_match(
                                views(blocks@),
                                bi as int,
                                cap_views(result->0@),
                                chs0,
                                kana@,
                                pos as int,
                                wi as int,
                            ));
                        assert(spec_wild_try(
                            bv,
                            bi as int,
                            len as int,
                            kana@,
                            pos as int,
                            wi as int,
                        ) == Some(cap_views(result->0@))) by {
                            assert(cap_views(result->0@) =~= seq![
                                kana@.subrange(pos as int, pos as int + len as int),
                            ] + cap_views(caps@));
                        };
                        assert(spec_blocks_try(bv, bi as int, kana@, pos as int, wi as int)
                            == Some(cap_views(result->0@)));
                    }
                    return result;
                },
                None => {
                    proof {
                        assert forall|caps: Seq<Seq<char>>, chs: Seq<Seq<int>>|
                            #[trigger] plan_match(
                                bv,
                                bi as int,
                                caps,
                                chs,
                                kana@,
                                pos as int,
                                wi as int,
                            ) implies caps.len() >= 1 && caps[0].len() <= len - 1 by {
                            if caps[0].len() == len {
                                assert(plan_match(
                                    bv,
                                    bi as int + 1,
                                    caps.drop_first(),
                                    chs.drop_first(),
                                    kana@,
                                    pos as int + len as int,
                                    wi as int,
                                ));
                                assert(blocks_matchable(
                                    bv,
                                    bi as int + 1,
                                    kana@,
                                    pos as int + len as int,
                                    wi as int,
                                ));
                                assert(false);
                            }
                        };
                        assert(spec_wild_try(
                            bv,
                            bi as int,
                            len as int,
                            kana@,
                            pos as int,
                            wi as int,
                        ) == spec_wild_try(
                            bv,
                            bi as int,
                            len as int - 1,
                            kana@,
                            pos as int,
                            wi as int,
                        ));
                    }
                },
            }
            len = len - 1;
        }
        proof {
            if blocks_matchable(bv, bi as int, kana@, pos as int, wi as int) {
                let (caps, chs) = choose|caps: Seq<Seq<char>>, chs: Seq<Seq<int>>|
                    plan_match(bv, bi as int, caps, chs, kana@, pos as int, wi as int);
                assert(caps[0].len() >= 1);
                assert(false);
            }
            assert(spec_wild_try(bv, bi as int, 0int, kana@, pos as int, wi as int) is None);
            assert(spec_blocks_try(bv, bi as int, kana@, pos as int, wi as int) is None);
        }
        None
    } else {
        let sub = match_units(blocks, bi, 0, kana, pos, wi);
        match sub {
            Some(caps) => {
                proof {
                    let capsd = cap_views(caps@);
                    let capsd0 = capsd[0];
                    let capsdr = capsd.drop_first();
                    let (ch, chs_sub) = choose|ch: Seq<int>, chs: Seq<Seq<int>>|
                        tail_match(
                            bv,
                            bi as int,
                            0,
                            capsd0,
                            ch,
                            capsdr,
                            chs,
                            kana@,
                            pos as int,
                            wi as int,
                        );
                    let chs = seq![ch] + chs_sub;
                    assert(chs.drop_first() =~= chs_sub);
                    assert(plan_match(bv, bi as int, capsd, chs, kana@, pos as int, wi as int));
                    assert(plan_match(
                        views(blocks@),
                        bi as int,
                        cap_views(caps@),
                        chs,
                        kana@,
                        pos as int,
                        wi as int,
                    ));
                    assert(spec_blocks_try(bv, bi as int, kana@, pos as int, wi as int) == Some(
                        cap_views(caps@),
                    ));
                }
                Some(caps)
            },
            None => {
                proof {
                    if blocks_matchable(bv, bi as int, kana@, pos as int, wi as int) {
                        let (caps, chs) = choose|caps: Seq<Seq<char>>, chs: Seq<Seq<int>>|
                            plan_match(bv, bi as int, caps, chs, kana@, pos as int, wi as int);
                        assert(tail_match(
                            bv,
                            bi as int,
                            0,
                            caps[0],
                            chs[0],
                            caps.drop_first(),
                            chs.drop_first(),
                            kana@,
                            pos as int,
                            wi as int,
                        ));
                        assert(units_matchable(bv, bi as int, 0, kana@, pos as int, wi as int));
                        assert(false);
                    }
                    assert(spec_blocks_try(bv, bi as int, kana@, pos as int, wi as int)
                        is None);
                }
                None
            },
        }
    }
}

/// The views of a list of reading strings.
pub open spec fn strs_views(v: Seq<String>) -> Seq<Seq<char>> {
    v.map_values(|s: String| s@)
}

/// The view of a readings table: each character with its candidate readings.
pub open spec fn table_views(t: Seq<(char, Vec<String>)>) -> Seq<(char, Seq<Seq<char>>)> {
    t.map_values(|p: (char, Vec<String>)| (p.0, strs_views(p.1@)))
}

/// The readings listed for `c`: the first entry of the table with that
/// character, if any.
pub open spec fn spec_lookup(t: Seq<(char, Seq<Seq<char>>)>, c: char) -> Option<Seq<Seq<char>>>
    decreases t.len(),
{
    if t.len() == 0 {
        None
    } else if t[0].0 == c {
        Some(t[0].1)
    } else {
        spec_lookup(t.drop_first(), c)
    }
}

/// The single-character block built for `c`: a reading block when the table
/// lists `c`, else a literal block matching only `c` itself.
pub open spec fn spec_block_of(c: char, t: Seq<(char, Seq<Seq<char>>)>) -> BlockV {
    match spec_lookup(t, c) {
        Some(alts) => BlockV { text: seq![c], is_kanji: true, units: seq![alts] },
        None => BlockV { text: seq![c], is_kanji: false, units: seq![seq![seq![c]]] },
    }
}

/// One block per character of the spelling.
pub open spec fn spec_build(kanji: Seq<char>, t: Seq<(char, Seq<Seq<char>>)>) -> Seq<BlockV> {
    Seq::new(kanji.len(), |i: int| spec_block_of(kanji[i], t))
}

/// Length of the run of blocks from `i` on whose kind equals `k`.
pub open spec fn same_kind_run(bs: Seq<BlockV>, i: int, k: bool) -> int
    decreases bs.len() - i,
{
    if i < 0 || i >= bs.len() || bs[i].is_kanji != k {
        0
    } else {
        1 + same_kind_run(bs, i + 1, k)
    }
}

proof fn lemma_same_kind_run_bounds(bs: Seq<BlockV>, i: int, k: bool)
    requires
        0 <= i <= bs.len(),
    ensures
        0 <= same_kind_run(bs, i, k),
        i + same_kind_run(bs, i, k) <= bs.len(),
    decreases bs.len() - i,
{
    if i < bs.len() && bs[i].is_kanji == k {
        lemma_same_kind_run_bounds(bs, i + 1, k);
    }
}

/// The texts of a group of blocks, concatenated.
pub open spec fn concat_texts(bs: Seq<BlockV>) -> Seq<char>
    decreases bs.len(),
{
    if bs.len() == 0 {
        Seq::<char>::empty()
    } else {
        bs[0].text + concat_texts(bs.drop_first())
    }
}

/// The units of a group of blocks, concatenated.
pub open spec fn concat_units(bs: Seq<BlockV>) -> Seq<Seq<Seq<char>>>
    decreases bs.len(),
{
    if bs.len() == 0 {
        Seq::<Seq<Seq<char>>>::empty()
    } else {
        bs[0].units + concat_units(bs.drop_first())
    }
}

/// One block standing for a whole group of adjacent same-kind blocks.
pub open spec fn merge_group(bs: Seq<BlockV>, k: bool) -> BlockV {
    BlockV { text: concat_texts(bs), is_kanji: k, units: concat_units(bs) }
}

/// Adjacent blocks of the same kind folded into single combined blocks.
pub open spec fn spec_coalesce(bs: Seq<BlockV>) -> Seq<BlockV>
    decreases bs.len() via spec_coalesce_decreases
{
    if bs.len() == 0 {
        Seq::<BlockV>::empty()
    } else {
        let g = same_kind_run(bs, 0, bs[0].is_kanji);
        seq![merge_group(bs.subrange(0, g), bs[0].is_kanji)] + spec_coalesce(bs.skip(g))
    }
}

#[via_fn]
proof fn spec_coalesce_decreases(bs: Seq<BlockV>) {
    if bs.len() > 0 {
        let k = bs[0].is_kanji;
        lemma_same_kind_run_bounds(bs, 0, k);
        if bs.len() > 1 {
            lemma_same_kind_run_bounds(bs, 1, k);
        }
        assert(same_kind_run(bs, 0, k) == 1 + same_kind_run(bs, 1, k));
        assert(same_kind_run(bs, 0, k) >= 1);
    }
}

/// A wildcard may stand nowhere (`wi == 0`) or directly after a reading
/// block, replacing it.
pub open spec fn attempt_allowed(bs: Seq<BlockV>, wi: int) -> bool {
    wi == 0 || (1 <= wi <= bs.len() && bs[wi - 1].is_kanji)
}

/// Some allowed wildcard position lets the blocks consume all of `kana`.
pub open spec fn some_attempt_matches(bs: Seq<BlockV>, kana: Seq<char>) -> bool {
    exists|wi: int| attempt_allowed(bs, wi) && blocks_matchable(bs, 0, kana, 0, wi)
}

/// The display string assembled from the blocks and their captures: each
/// reading block becomes `text[capture]`, preceded by a space unless the
/// previous block was also a reading block; a literal block stands as its
/// text.
pub open spec fn spec_render(
    blocks: Seq<BlockV>,
    caps: Seq<Seq<char>>,
    i: int,
    prev_kanji: bool,
) -> Seq<char>
    decreases blocks.len() - i,
{
    if i < 0 || i >= blocks.len() {
        Seq::<char>::empty()
    } else {
        (if blocks[i].is_kanji {
            (if prev_kanji {
                Seq::<char>::empty()
            } else {
                seq![' ']
            }) + blocks[i].text + seq!['['] + caps[i] + seq![']']
        } else {
            blocks[i].text
        }) + spec_render(blocks, caps, i + 1, blocks[i].is_kanji)
    }
}

/// Mapping reading lists to views commutes with appending one reading.
proof fn lemma_alts_push(u: Seq<Vec<char>>, x: Vec<char>)
    ensures
        alts_views(u.push(x)) == alts_views(u).push(x@),
{
    assert forall|j: int| 0 <= j < u.len() + 1 implies alts_views(u.push(x))[j] == alts_views(
        u,
    ).push(x@)[j] by {
        if j < u.len() {
            assert(u.push(x)[j] == u[j]);
        } else {
            assert(u.push(x)[j] == x);
        }
    };
    assert(alts_views(u.push(x)) =~= alts_views(u).push(x@));
}

/// Mapping unit lists to views commutes with appending one unit.
proof fn lemma_units_push(us: Seq<Vec<Vec<char>>>, x: Vec<Vec<char>>)
    ensures
        units_views(us.push(x)) == units_views(us).push(alts_views(x@)),
{
    assert forall|j: int| 0 <= j < us.len() + 1 implies units_views(us.push(x))[j] == units_views(
        us,
    ).push(alts_views(x@))[j] by {
        if j < us.len() {
            assert(us.push(x)[j] == us[j]);
        } else {
            assert(us.push(x)[j] == x);
        }
    };
    assert(units_views(us.push(x)) =~= units_views(us).push(alts_views(x@)));
}

/// Mapping reading strings to views commutes with appending one string.
proof fn lemma_strs_push(v: Seq<String>, x: String)
    ensures
        strs_views(v.push(x)) == strs_views(v).push(x@),
{
    assert forall|j: int| 0 <= j < v.len() + 1 implies strs_views(v.push(x))[j] == strs_views(
        v,
    ).push(x@)[j] by {
        if j < v.len() {
            assert(v.push(x)[j] == v[j]);
        } else {
            assert(v.push(x)[j] == x);
        }
    };
    assert(strs_views(v.push(x)) =~= strs_views(v).push(x@));
}

/// Mapping blocks to views commutes with appending one block.
proof fn lemma_views_push(bs: Seq<Block>, b: Block)
    ensures
        views(bs.push(b)) == views(bs).push(b@),
{
    assert forall|j: int| 0 <= j < bs.len() + 1 implies views(bs.push(b))[j] == views(bs).push(
        b@,
    )[j] by {
        if j < bs.len() {
            assert(bs.push(b)[j] == bs[j]);
        } else {
            assert(bs.push(b)[j] == b);
        }
    };
    assert(views(bs.push(b)) =~= views(bs).push(b@));
}

/// Converts candidate readings into character vectors.
fn strings_to_alts(v: &Vec<String>) -> (r: Vec<Vec<char>>)
    ensures
        alts_views(r@) == strs_views(v@),
{
    let mut r: Vec<Vec<char>> = Vec::new();
    let mut i: usize = 0;
    while i < v.len()
        invariant
            i <= v@.len(),
            alts_views(r@) == strs_views(v@.subrange(0, i as int)),
        decreases v@.len() - i,
    {
        let ghost rold = r@;
        let x = crate::text::str_to_chars(v[i].as_str());
        r.push(x);
        i = i + 1;
        proof {
            lemma_alts_push(rold, x);
            assert(v@.subrange(0, i as int) =~= v@.subrange(0, i as int - 1).push(
                v@[i as int - 1],
            ));
            lemma_strs_push(v@.subrange(0, i as int - 1), v@[i as int - 1]);
        }
    }
    assert(v@.subrange(0, v@.len() as int) =~= v@);
    r
}

/// Finds the readings listed for `c` in the table.
fn lookup_readings(table: &Vec<(char, Vec<String>)>, c: char) -> (r: Option<usize>)
    ensures
        r is Some <==> spec_lookup(table_views(table@), c) is Some,
        r is Some ==> r->0 < table@.len() && strs_views(table@[r->0 as int].1@)
            == spec_lookup(table_views(table@), c)->0,
{
    let ghost tv = table_views(table@);
    let mut i: usize = 0;
    proof {
        assert(tv.skip(0) =~= tv);
    }
    while i < table.len()
        invariant
            i <= table@.len(),
            tv == table_views(table@),
            spec_lookup(tv, c) == spec_lookup(tv.skip(i as int), c),
        decreases table@.len() - i,
    {
        let ghost pre = tv.skip(i as int);
        if table[i].0 == c {
            proof {
                assert(pre[0] == tv[i as int]);
            }
            return Some(i);
        }
        i = i + 1;
        proof {
            assert(pre.drop_first() =~= tv.skip(i as int));
        }
    }
    proof {
        assert(tv.skip(table@.len() as int) =~= Seq::<(char, Seq<Seq<char>>)>::empty());
    }
    None
}

/// Builds one block per character of the spelling.
fn build_blocks(kanji: &Vec<char>, table: &Vec<(char, Vec<String>)>) -> (bs: Vec<Block>)
    ensures
        views(bs@) == spec_build(kanji@, table_views(table@)),
{
    let ghost tv = table_views(table@);
    let mut bs: Vec<Block> = Vec::new();
    let mut i: usize = 0;
    proof {
        assert(views(bs@) =~= spec_build(kanji@.subrange(0, 0), tv));
    }
    while i < kanji.len()
        invariant
            i <= kanji@.len(),
            tv == table_views(table@),
            views(bs@) == spec_build(kanji@.subrange(0, i as int), tv),
        decreases kanji@.len() - i,
    {
        let ghost bsold = bs@;
        let c = kanji[i];
        let mut text: Vec<char> = Vec::new();
        text.push(c);
        assert(text@ =~= seq![c]);
        let b = match lookup_readings(table, c) {
            Some(idx) => {
                let units_one = strings_to_alts(&table[idx].1);
                let mut units: Vec<Vec<Vec<char>>> = Vec::new();
                units.push(units_one);
                Block { text, is_kanji: true, units }
            },
            None => {
                let mut alt: Vec<char> = Vec::new();
                alt.push(c);
                let mut unit_one: Vec<Vec<char>> = Vec::new();
                unit_one.push(alt);
                let mut units: Vec<Vec<Vec<char>>> = Vec::new();
                units.push(unit_one);
                Block { text, is_kanji: false, units }
            },
        };
        proof {
            assert(units_views(b.units@) =~~= spec_block_of(c, tv).units);
            assert(b@.text =~= spec_block_of(c, tv).text);
            assert(b@ == spec_block_of(c, tv));
        }
        bs.push(b);
        i = i + 1;
        proof {
            lemma_views_push(bsold, b);
            assert(spec_build(kanji@.subrange(0, i as int), tv) =~= spec_build(
                kanji@.subrange(0, i as int - 1),
                tv,
            ).push(spec_block_of(kanji@[i as int - 1], tv)));
        }
    }
    assert(kanji@.subrange(0, kanji@.len() as int) =~= kanji@);
    bs
}

/// Length of the run of blocks of kind `k` starting at `i`, executably.
fn same_kind_run_exec(bs: &Vec<Block>, i: usize, k: bool) -> (r: usize)
    requires
        i <= bs@.len(),
    ensures
        r == same_kind_run(views(bs@), i as int, k),
        i + r <= bs@.len(),
{
    let ghost bv = views(bs@);
    let mut j: usize = i;
    while j < bs.len() && bs[j].is_kanji == k
        invariant
            i <= j <= bs@.len(),
            bv == views(bs@),
            same_kind_run(bv, i as int, k) == (j - i) + same_kind_run(bv, j as int, k),
        decreases bs@.len() - j,
    {
        j = j + 1;
    }
    proof {
        lemma_same_kind_run_bounds(bv, j as int, k);
    }
    j - i
}

/// A same-kind run within a sequence equals the run of the corresponding suffix.
proof fn lemma_run_skip(bs: Seq<BlockV>, i: int, d: int, k: bool)
    requires
        0 <= i,
        0 <= d,
        i + d <= bs.len(),
    ensures
        same_kind_run(bs.skip(i), d, k) == same_kind_run(bs, i + d, k),
    decreases bs.len() - i - d,
{
    if i + d < bs.len() && bs[i + d].is_kanji == k {
        lemma_run_skip(bs, i, d + 1, k);
    }
}

/// Extends the concatenations of a group by one block.
proof fn lemma_group_extend(bs: Seq<BlockV>, i: int, j: int)
    requires
        0 <= i,
        1 <= j,
        i + j <= bs.len(),
    ensures
        concat_texts(bs.subrange(i, i + j)) == concat_texts(bs.subrange(i, i + j - 1)) + bs[i + j
            - 1].text,
        concat_units(bs.subrange(i, i + j)) == concat_units(bs.subrange(i, i + j - 1)) + bs[i + j
            - 1].units,
    decreases j,
{
    let whole = bs.subrange(i, i + j);
    if j == 1 {
        assert(whole.drop_first() =~= Seq::<BlockV>::empty());
        assert(concat_texts(whole) == whole[0].text + concat_texts(whole.drop_first()));
        assert(concat_texts(Seq::<BlockV>::empty()) == Seq::<char>::empty());
        assert(whole[0] == bs[i]);
        assert(concat_texts(whole) =~= bs[i].text);
        assert(bs.subrange(i, i) =~= Seq::<BlockV>::empty());
        assert(concat_texts(bs.subrange(i, i)) + bs[i].text =~= bs[i].text);
        assert(concat_units(whole) == whole[0].units + concat_units(whole.drop_first()));
        assert(concat_units(Seq::<BlockV>::empty()) == Seq::<Seq<Seq<char>>>::empty());
        assert(concat_units(whole) =~= bs[i].units);
        assert(concat_units(bs.subrange(i, i)) + bs[i].units =~= bs[i].units);
    } else {
        lemma_group_extend(bs, i + 1, j - 1);
        assert(whole.drop_first() =~= bs.subrange(i + 1, i + j));
        assert(bs.subrange(i, i + j - 1).drop_first() =~= bs.subrange(i + 1, i + j - 1));
        assert(concat_texts(whole) == whole[0].text + concat_texts(bs.subrange(i + 1, i + j)));
        assert(bs[i].text + (concat_texts(bs.subrange(i + 1, i + j - 1)) + bs[i + j - 1].text)
            =~= (bs[i].text + concat_texts(bs.subrange(i + 1, i + j - 1))) + bs[i + j - 1].text);
        assert(concat_texts(bs.subrange(i, i + j - 1)) == bs[i].text + concat_texts(
            bs.subrange(i + 1, i + j - 1),
        ));
        assert(concat_units(whole) == whole[0].units + concat_units(bs.subrange(i + 1, i + j)));
        assert(bs[i].units + (concat_units(bs.subrange(i + 1, i + j - 1)) + bs[i + j - 1].units)
            =~= (bs[i].units + concat_units(bs.subrange(i + 1, i + j - 1))) + bs[i + j
            - 1].units);
        assert(concat_units(bs.subrange(i, i + j - 1)) == bs[i].units + concat_units(
            bs.subrange(i + 1, i + j - 1),
        ));
    }
}

/// Copies the unit lists of a block.
fn clone_units(us: &Vec<Vec<Vec<char>>>) -> (r: Vec<Vec<Vec<char>>>)
    ensures
        units_views(r@) == units_views(us@),
{
    let mut r: Vec<Vec<Vec<char>>> = Vec::new();
    let mut i: usize = 0;
    while i < us.len()
        invariant
            i <= us@.len(),
            units_views(r@) == units_views(us@.subrange(0, i as int)),
        decreases us@.len() - i,
    {
        let ghost rold = r@;
        let mut unit: Vec<Vec<char>> = Vec::new();
        let mut j: usize = 0;
        while j < us[i].len()
            invariant
                i < us@.len(),
                j <= us@[i as int]@.len(),
                alts_views(unit@) == alts_views(us@[i as int]@.subrange(0, j as int)),
            decreases us@[i as int]@.len() - j,
        {
            let ghost uold = unit@;
            let x = crate::text::sub_chars(&us[i][j], 0, us[i][j].len());
            proof {
                assert(x@ =~= us@[i as int]@[j as int]@);
            }
            unit.push(x);
            j = j + 1;
            proof {
                lemma_alts_push(uold, x);
                assert(us@[i as int]@.subrange(0, j as int) =~= us@[i as int]@.subrange(
                    0,
                    j as int - 1,
                ).push(us@[i as int]@[j as int - 1]));
                lemma_alts_push(
                    us@[i as int]@.subrange(0, j as int - 1),
                    us@[i as int]@[j as int - 1],
                );
                assert(alts_views(unit@) =~= alts_views(us@[i as int]@.subrange(0, j as int)));
            }
        }
        proof {
            assert(us@[i as int]@.subrange(0, us@[i as int]@.len() as int) =~= us@[i as int]@);
        }
        r.push(unit);
        i = i + 1;
        proof {
            lemma_units_push(rold, unit);
            assert(us@.subrange(0, i as int) =~= us@.subrange(0, i as int - 1).push(
                us@[i as int - 1],
            ));
            lemma_units_push(us@.subrange(0, i as int - 1), us@[i as int - 1]);
            assert(units_views(r@) =~= units_views(us@.subrange(0, i as int)));
        }
    }
    assert(us@.subrange(0, us@.len() as int) =~= us@);
    r
}

/// Folds adjacent same-kind blocks into single combined blocks.
fn coalesce(bs: &Vec<Block>) -> (out: Vec<Block>)
    ensures
        views(out@) == spec_coalesce(views(bs@)),
{
    let ghost bv = views(bs@);
    let nbs: usize = bs.len();
    let mut out: Vec<Block> = Vec::new();
    let mut i: usize = 0;
    proof {
        assert(bv.skip(0) =~= bv);
        assert(Seq::<BlockV>::empty() + spec_coalesce(bv) =~= spec_coalesce(bv));
    }
    while i < nbs
        invariant
            i <= nbs,
            nbs == bs@.len(),
            bv == views(bs@),
            spec_coalesce(bv) == views(out@) + spec_coalesce(bv.skip(i as int)),
        decreases nbs - i,
    {
        let ghost t0 = bv.skip(i as int);
        let ghost out0 = views(out@);
        let k = bs[i].is_kanji;
        let g: usize = same_kind_run_exec(bs, i, k);
        proof {
            assert(g >= 1) by {
                assert(bv[i as int].is_kanji == k);
                lemma_same_kind_run_bounds(bv, i as int + 1, k);
                assert(same_kind_run(bv, i as int, k) == 1 + same_kind_run(bv, i as int + 1, k));
            };
        }
        let mut text: Vec<char> = Vec::new();
        let mut units: Vec<Vec<Vec<char>>> = Vec::new();
        let mut j: usize = 0;
        proof {
            assert(bv.subrange(i as int, i as int) =~= Seq::<BlockV>::empty());
        }
        while j < g
            invariant
                i + g <= nbs,
                nbs == bs@.len(),
                j <= g,
                bv == views(bs@),
                text@ == concat_texts(bv.subrange(i as int, i as int + j as int)),
                units_views(units@) == concat_units(bv.subrange(i as int, i as int + j as int)),
            decreases g - j,
        {
            let ghost uold = units@;
            let mut t2 = crate::text::sub_chars(&bs[i + j].text, 0, bs[i + j].text.len());
            text.append(&mut t2);
            let u2: Vec<Vec<Vec<char>>> = clone_units(&bs[i + j].units);
            let ghost u2s = u2@;
            let mut u2m = u2;
            units.append(&mut u2m);
            j = j + 1;
            proof {
                lemma_group_extend(bv, i as int, j as int);
                lemma_units_views_concat(uold, u2s);
                assert(units_views(u2s) == bv[i as int + j as int - 1].units);
                assert(units_views(units@) =~= concat_units(
                    bv.subrange(i as int, i as int + j as int),
                ));
            }
        }
        let b = Block { text, is_kanji: k, units };
        proof {
            let gi = g as int;
            assert(bv.subrange(i as int, i as int + gi) =~= t0.subrange(0, gi));
            assert(b@ == merge_group(t0.subrange(0, gi), t0[0].is_kanji));
        }
        let ghost outold = out@;
        let ghost bsnap = b@;
        out.push(b);
        i = i + g;
        proof {
            lemma_run_skip(bv, i as int - g as int, 0, k);
            assert(same_kind_run(t0, 0, t0[0].is_kanji) == g);
            assert(t0.skip(g as int) =~= bv.skip(i as int));
            assert(spec_coalesce(t0) == seq![bsnap] + spec_coalesce(bv.skip(i as int)));
            assert(views(out@) =~= views(outold).push(bsnap)) by {
                assert(out@.len() == outold.len() + 1);
                assert(forall|q: int| 0 <= q < outold.len() ==> out@[q] == outold[q]);
                assert(out@[outold.len() as int]@ == bsnap);
            };
            assert(spec_coalesce(bv) =~= views(out@) + spec_coalesce(bv.skip(i as int)));
        }
    }
    proof {
        assert(bv.skip(nbs as int) =~= Seq::<BlockV>::empty());
        assert(spec_coalesce(bv) =~= views(out@));
    }
    out
}

/// Mapping unit lists to views distributes over concatenation.
proof fn lemma_units_views_concat(a: Seq<Vec<Vec<char>>>, b: Seq<Vec<Vec<char>>>)
    ensures
        units_views(a + b) == units_views(a) + units_views(b),
{
    assert forall|j: int| 0 <= j < a.len() + b.len() implies units_views(a + b)[j] == (
    units_views(a) + units_views(b))[j] by {
        if j < a.len() {
            assert((a + b)[j] == a[j]);
        } else {
            assert((a + b)[j] == b[j - a.len()]);
        }
    };
    assert(units_views(a + b) =~= units_views(a) + units_views(b));
}

/// Renders the captured alignment as the display string.
fn render_caps(blocks: &Vec<Block>, caps: &Vec<Vec<char>>) -> (out: Vec<char>)
    requires
        caps@.len() == blocks@.len(),
    ensures
        out@ == spec_render(views(blocks@), cap_views(caps@), 0, true),
{
    let ghost bv = views(blocks@);
    let ghost cv = cap_views(caps@);
    let mut out: Vec<char> = Vec::new();
    let mut prev_kanji = true;
    let mut i: usize = 0;
    proof {
        assert(Seq::<char>::empty() + spec_render(bv, cv, 0, true) =~= spec_render(
            bv,
            cv,
            0,
            true,
        ));
    }
    while i < blocks.len()
        invariant
            i <= blocks@.len(),
            caps@.len() == blocks@.len(),
            bv == views(blocks@),
            cv == cap_views(caps@),
            spec_render(bv, cv, 0, true) == out@ + spec_render(bv, cv, i as int, prev_kanji),
        decreases blocks@.len() - i,
    {
        let ghost out0 = out@;
        if blocks[i].is_kanji {
            if !prev_kanji {
                out.push(' ');
            }
            let mut t = crate::text::sub_chars(&blocks[i].text, 0, blocks[i].text.len());
            out.append(&mut t);
            out.push('[');
            let mut c = crate::text::sub_chars(&caps[i], 0, caps[i].len());
            out.append(&mut c);
            out.push(']');
            proof {
                if prev_kanji {
                    assert(out@ =~= out0 + (Seq::<char>::empty() + bv[i as int].text + seq!['[']
                        + cv[i as int] + seq![']']));
                } else {
                    assert(out@ =~= out0 + (seq![' '] + bv[i as int].text + seq!['[']
                        + cv[i as int] + seq![']']));
                }
            }
            prev_kanji = true;
        } else {
            let mut t = crate::text::sub_chars(&blocks[i].text, 0, blocks[i].text.len());
            out.append(&mut t);
            proof {
                assert(out@ =~= out0 + bv[i as int].text);
            }
            prev_kanji = false;
        }
        i = i + 1;
        proof {
            assert(spec_render(bv, cv, 0, true) =~= out@ + spec_render(
                bv,
                cv,
                i as int,
                prev_kanji,
            ));
        }
    }
    out
}

/// Tries one wildcard position and renders the alignment if it succeeds.
fn attempt_at(blocks: &Vec<Block>, kana: &Vec<char>, wi: usize) -> (r: Option<Vec<char>>)
    requires
        wi <= blocks@.len(),
    ensures
        r is Some <==> (attempt_allowed(views(blocks@), wi as int) && blocks_matchable(
            views(blocks@),
            0,
            kana@,
            0,
            wi as int,
        )),
        r is Some ==> exists|caps: Seq<Seq<char>>, chs: Seq<Seq<int>>|
            {
                &&& plan_match(views(blocks@), 0, caps, chs, kana@, 0, wi as int)
                &&& r->0@ == spec_render(views(blocks@), caps, 0, true)
            },
        r is None ==> spec_attempt(views(blocks@), kana@, wi as int) is None,
        r is Some ==> {
            let sa = spec_attempt(views(blocks@), kana@, wi as int);
            sa is Some && r->0@ == spec_render(views(blocks@), sa->0, 0, true)
        },
{
    let ghost bv = views(blocks@);
    let allowed = if wi == 0 {
        true
    } else {
        blocks[wi - 1].is_kanji
    };
    if !allowed {
        proof {
            assert(!attempt_allowed(bv, wi as int));
            assert(spec_attempt(bv, kana@, wi as int) is None);
        }
        return None;
    }
    let m = match_blocks(blocks, 0, kana, 0, wi);
    match m {
        Some(caps) => {
            proof {
                assert(caps@.len() == blocks@.len());
            }
            let out = render_caps(blocks, &caps);
            let result = Some(out);
            proof {
                let capsd = cap_views(caps@);
                let chs = choose|chs: Seq<Seq<int>>|
                    plan_match(views(blocks@), 0, capsd, chs, kana@, 0, wi as int);
                assert(result->0@ == spec_render(views(blocks@), capsd, 0, true));
                assert(exists|caps0: Seq<Seq<char>>, chs0: Seq<Seq<int>>|
                    {
                        &&& plan_match(views(blocks@), 0, caps0, chs0, kana@, 0, wi as int)
                        &&& result->0@ == spec_render(views(blocks@), caps0, 0, true)
                    });
                assert(spec_attempt(bv, kana@, wi as int) == Some(capsd));
            }
            result
        },
        None => {
            proof {
                assert(spec_attempt(bv, kana@, wi as int) is None);
            }
            None
        },
    }
}

/// Tries each allowed wildcard position in order (none first, then after
/// each reading block left to right) and renders the first alignment found.
fn blocks_check(blocks: &Vec<Block>, kana: &Vec<char>) -> (r: Option<Vec<char>>)
    ensures
        r is Some <==> some_attempt_matches(views(blocks@), kana@),
        r is Some ==> exists|wi: int, caps: Seq<Seq<char>>, chs: Seq<Seq<int>>|
            {
                &&& attempt_allowed(views(blocks@), wi)
                &&& plan_match(views(blocks@), 0, caps, chs, kana@, 0, wi)
                &&& r->0@ == spec_render(views(blocks@), caps, 0, true)
            },
        r is None ==> spec_search(views(blocks@), kana@, 0) is None,
        r is Some ==> {
            let sr = spec_search(views(blocks@), kana@, 0);
            sr is Some && r->0@ == spec_render(views(blocks@), (sr->0).1, 0, true)
        },
{
    let ghost bv = views(blocks@);
    let nb: usize = blocks.len();
    let first = attempt_at(blocks, kana, 0);
    match first {
        Some(out) => {
            let result = Some(out);
            proof {
                assert(some_attempt_matches(bv, kana@));
                assert(spec_search(bv, kana@, 0) == Some(
                    (0int, spec_attempt(bv, kana@, 0)->0),
                ));
            }
            return result;
        },
        None => {},
    }
    proof {
        assert(spec_search(bv, kana@, 0) == spec_search(bv, kana@, 1));
    }
    let mut w1: usize = 0;
    while w1 < nb
        invariant
            w1 <= nb,
            nb == blocks@.len(),
            bv == views(blocks@),
            spec_search(bv, kana@, 0) == spec_search(bv, kana@, w1 as int + 1),
            forall|w0: int|
                w0 <= w1 ==> !(attempt_allowed(bv, w0) && blocks_matchable(bv, 0, kana@, 0, w0)),
        decreases nb - w1,
    {
        let a = attempt_at(blocks, kana, w1 + 1);
        match a {
            Some(out) => {
                let result = Some(out);
                proof {
                    assert(attempt_allowed(bv, w1 as int + 1) && blocks_matchable(
                        bv,
                        0,
                        kana@,
                        0,
                        w1 as int + 1,
                    ));
                    assert(some_attempt_matches(bv, kana@));
                    assert(spec_search(bv, kana@, w1 as int + 1) == Some(
                        (w1 as int + 1, spec_attempt(bv, kana@, w1 as int + 1)->0),
                    ));
                }
                return result;
            },
            None => {
                proof {
                    assert(spec_search(bv, kana@, w1 as int + 1) == spec_search(
                        bv,
                        kana@,
                        w1 as int + 2,
                    ));
                }
            },
        }
        w1 = w1 + 1;
    }
    proof {
        assert forall|w0: int| !(attempt_allowed(bv, w0) && blocks_matchable(
            bv,
            0,
            kana@,
            0,
            w0,
        )) by {
            if w0 > nb {
                assert(!attempt_allowed(bv, w0));
            }
        };
        assert(spec_search(bv, kana@, nb as int + 1) is None);
    }
    None
}

/// Every character of `s` may stand inside an annotated run: no whitespace
/// and no brackets.
pub open spec fn all_body(s: Seq<char>) -> bool {
    forall|i: int| 0 <= i < s.len() ==> is_body_char(#[trigger] s[i])
}

/// Every reading in the table is nonempty.
pub open spec fn table_ok(t: Seq<(char, Seq<Seq<char>>)>) -> bool {
    forall|i: int, j: int|
        0 <= i < t.len() && 0 <= j < t[i].1.len() ==> (#[trigger] t[i].1[j]).len() >= 1
}

/// A literal block's units admit exactly its own text, one character each.
pub open spec fn lit_structure(b: BlockV) -> bool {
    b.units.len() == b.text.len() && forall|q: int|
        0 <= q < b.text.len() ==> #[trigger] b.units[q] == seq![seq![b.text[q]]]
}

/// The structural facts the round-trip argument needs of every block.
pub open spec fn blocks_wf(bs: Seq<BlockV>) -> bool {
    forall|j: int|
        0 <= j < bs.len() ==> {
            &&& (#[trigger] bs[j]).text.len() >= 1
            &&& bs[j].units.len() >= 1
            &&& (!bs[j].is_kanji ==> lit_structure(bs[j]))
            &&& (bs[j].is_kanji ==> forall|ui: int, k: int|
                0 <= ui < bs[j].units.len() && 0 <= k < bs[j].units[ui].len() ==> (
                #[trigger] bs[j].units[ui][k]).len() >= 1)
        }
}

/// Every block's text is made of plain characters.
pub open spec fn blocks_plain(bs: Seq<BlockV>) -> bool {
    forall|j: int| 0 <= j < bs.len() ==> all_body((#[trigger] bs[j]).text)
}

/// The texts of blocks `i..`, concatenated.
pub open spec fn texts_from(bs: Seq<BlockV>, i: int) -> Seq<char>
    decreases bs.len() - i,
{
    if i < 0 || i >= bs.len() {
        Seq::<char>::empty()
    } else {
        bs[i].text + texts_from(bs, i + 1)
    }
}

/// The pronunciation of blocks `i..`: a reading block contributes its
/// capture, a literal block its text.
pub open spec fn sel_from(bs: Seq<BlockV>, caps: Seq<Seq<char>>, i: int) -> Seq<char>
    decreases bs.len() - i,
{
    if i < 0 || i >= bs.len() {
        Seq::<char>::empty()
    } else {
        (if bs[i].is_kanji {
            caps[i]
        } else {
            bs[i].text
        }) + sel_from(bs, caps, i + 1)
    }
}

/// A lookup result is one of the table's reading lists.
proof fn lemma_lookup_member(t: Seq<(char, Seq<Seq<char>>)>, c: char)
    requires
        spec_lookup(t, c) is Some,
    ensures
        exists|i: int| 0 <= i < t.len() && #[trigger] t[i].1 == spec_lookup(t, c)->0,
    decreases t.len(),
{
    if t.len() > 0 && t[0].0 != c {
        lemma_lookup_member(t.drop_first(), c);
        let i0 = choose|i: int|
            0 <= i < t.drop_first().len() && #[trigger] t.drop_first()[i].1 == spec_lookup(
                t.drop_first(),
                c,
            )->0;
        assert(t[i0 + 1].1 == spec_lookup(t, c)->0);
    }
}

/// The per-character blocks of a plain spelling over a well-formed table are
/// well formed, plain, and spell out the input.
proof fn lemma_build_wf(kanji: Seq<char>, t: Seq<(char, Seq<Seq<char>>)>)
    ensures
        table_ok(t) ==> blocks_wf(spec_build(kanji, t)),
        all_body(kanji) ==> blocks_plain(spec_build(kanji, t)),
        texts_from(spec_build(kanji, t), 0) == kanji,
{
    let bs = spec_build(kanji, t);
    if table_ok(t) {
        assert forall|j: int| 0 <= j < bs.len() implies {
            &&& (#[trigger] bs[j]).text.len() >= 1
            &&& bs[j].units.len() >= 1
            &&& (!bs[j].is_kanji ==> lit_structure(bs[j]))
            &&& (bs[j].is_kanji ==> forall|ui: int, k: int|
                0 <= ui < bs[j].units.len() && 0 <= k < bs[j].units[ui].len() ==> (
                #[trigger] bs[j].units[ui][k]).len() >= 1)
        } by {
            let c = kanji[j];
            if bs[j].is_kanji {
                lemma_lookup_member(t, c);
            }
        };
    }
    if all_body(kanji) {
        assert forall|j: int| 0 <= j < bs.len() implies all_body((#[trigger] bs[j]).text) by {};
    }
    lemma_build_texts(kanji, t, 0);
}

proof fn lemma_build_texts(kanji: Seq<char>, t: Seq<(char, Seq<Seq<char>>)>, i: int)
    requires
        0 <= i <= kanji.len(),
    ensures
        texts_from(spec_build(kanji, t), i) == kanji.skip(i),
    decreases kanji.len() - i,
{
    let bs = spec_build(kanji, t);
    if i == kanji.len() {
        assert(kanji.skip(i) =~= Seq::<char>::empty());
    } else {
        lemma_build_texts(kanji, t, i + 1);
        assert(texts_from(bs, i) =~= kanji.skip(i));
    }
}

/// Concatenating the texts and units of a group of well-formed same-kind
/// blocks yields a well-formed block.
proof fn lemma_merge_wf(g: Seq<BlockV>, k: bool)
    requires
        g.len() >= 1,
        forall|j: int|
            0 <= j < g.len() ==> {
                &&& (#[trigger] g[j]).is_kanji == k
                &&& g[j].text.len() >= 1
                &&& g[j].units.len() >= 1
                &&& (!g[j].is_kanji ==> lit_structure(g[j]))
                &&& (g[j].is_kanji ==> forall|ui: int, kk: int|
                    0 <= ui < g[j].units.len() && 0 <= kk < g[j].units[ui].len() ==> (
                    #[trigger] g[j].units[ui][kk]).len() >= 1)
            },
    ensures
        merge_group(g, k).text.len() >= 1,
        merge_group(g, k).units.len() >= 1,
        !k ==> lit_structure(merge_group(g, k)),
        k ==> forall|ui: int, kk: int|
            0 <= ui < merge_group(g, k).units.len() && 0 <= kk < merge_group(
                g,
                k,
            ).units[ui].len() ==> (#[trigger] merge_group(g, k).units[ui][kk]).len() >= 1,
        (forall|j: int| 0 <= j < g.len() ==> all_body((#[trigger] g[j]).text)) ==> all_body(
            merge_group(g, k).text,
        ),
        concat_texts(g) == merge_group(g, k).text,
    decreases g.len(),
{
    if g.len() == 1 {
        assert(g.drop_first() =~= Seq::<BlockV>::empty());
        assert(concat_texts(g) == g[0].text + concat_texts(g.drop_first()));
        assert(concat_texts(Seq::<BlockV>::empty()) == Seq::<char>::empty());
        assert(concat_texts(g) =~= g[0].text);
        assert(concat_units(g) == g[0].units + concat_units(g.drop_first()));
        assert(concat_units(Seq::<BlockV>::empty()) == Seq::<Seq<Seq<char>>>::empty());
        assert(concat_units(g) =~= g[0].units);
        let m = merge_group(g, k);
        if !k {
            assert(lit_structure(m)) by {
                assert(forall|q: int|
                    0 <= q < m.text.len() ==> #[trigger] m.units[q] == g[0].units[q]);
            };
        }
    } else {
        let rest = g.drop_first();
        lemma_merge_wf(rest, k);
        let m = merge_group(g, k);
        let mr = merge_group(rest, k);
        assert(m.text == g[0].text + mr.text);
        assert(m.units == g[0].units + mr.units);
        if !k {
            assert(lit_structure(m)) by {
                assert(m.units.len() == m.text.len());
                assert forall|q: int| 0 <= q < m.text.len() implies #[trigger] m.units[q]
                    == seq![seq![m.text[q]]] by {
                    if q < g[0].text.len() {
                        assert(m.units[q] == g[0].units[q]);
                        assert(m.text[q] == g[0].text[q]);
                    } else {
                        assert(m.units[q] == mr.units[q - g[0].units.len()]);
                        assert(m.text[q] == mr.text[q - g[0].text.len()]);
                    }
                };
            };
        } else {
            assert forall|ui: int, kk: int|
                0 <= ui < m.units.len() && 0 <= kk < m.units[ui].len() implies (
            #[trigger] m.units[ui][kk]).len() >= 1 by {
                if ui < g[0].units.len() {
                    assert(m.units[ui] == g[0].units[ui]);
                } else {
                    assert(m.units[ui] == mr.units[ui - g[0].units.len()]);
                }
            };
        }
        if forall|j: int| 0 <= j < g.len() ==> all_body((#[trigger] g[j]).text) {
            assert forall|q: int| 0 <= q < m.text.len() implies is_body_char(
                #[trigger] m.text[q],
            ) by {
                if q < g[0].text.len() {
                    assert(m.text[q] == g[0].text[q]);
                } else {
                    assert(m.text[q] == mr.text[q - g[0].text.len()]);
                    assert(all_body(mr.text));
                }
            };
        }
    }
}

/// Coalescing preserves well-formedness, plainness, and the spelled text.
proof fn lemma_coalesce_wf(bs: Seq<BlockV>)
    requires
        blocks_wf(bs),
    ensures
        blocks_wf(spec_coalesce(bs)),
        blocks_plain(bs) ==> blocks_plain(spec_coalesce(bs)),
        texts_from(spec_coalesce(bs), 0) == texts_from(bs, 0),
    decreases bs.len(),
{
    if bs.len() == 0 {
    } else {
        let k = bs[0].is_kanji;
        let g = same_kind_run(bs, 0, k);
        lemma_same_kind_run_bounds(bs, 0, k);
        if bs.len() > 1 {
            lemma_same_kind_run_bounds(bs, 1, k);
        }
        assert(g == 1 + same_kind_run(bs, 1, k));
        assert(g >= 1);
        let grp = bs.subrange(0, g);
        let rest = bs.skip(g);
        assert(blocks_wf(rest)) by {
            assert(forall|j: int| 0 <= j < rest.len() ==> rest[j] == bs[j + g]);
        };
        lemma_coalesce_wf(rest);
        lemma_run_members(bs, 0, k, g);
        lemma_merge_wf(grp, k);
        let co = spec_coalesce(bs);
        let m = merge_group(grp, k);
        assert(co == seq![m] + spec_coalesce(rest));
        assert(blocks_wf(co)) by {
            assert(forall|j: int| 1 <= j < co.len() ==> co[j] == spec_coalesce(rest)[j - 1]);
            assert(co[0] == m);
        };
        if blocks_plain(bs) {
            assert(blocks_plain(co)) by {
                assert(forall|j: int| 0 <= j < grp.len() ==> all_body((#[trigger] grp[j]).text));
                assert(forall|j: int| 1 <= j < co.len() ==> co[j] == spec_coalesce(rest)[j - 1]);
                assert(blocks_plain(rest)) by {
                    assert(forall|j: int| 0 <= j < rest.len() ==> rest[j] == bs[j + g]);
                };
            };
        }
        assert(texts_from(co, 0) == texts_from(bs, 0)) by {
            assert(texts_from(co, 0) == m.text + texts_from(co, 1));
            lemma_texts_shift(co, spec_coalesce(rest));
            lemma_texts_split(bs, g);
            assert(concat_texts(grp) == m.text);
        };
    }
}

/// Every block of a same-kind run has that kind and the member properties.
proof fn lemma_run_members(bs: Seq<BlockV>, i: int, k: bool, g: int)
    requires
        0 <= i,
        i + g <= bs.len(),
        g == same_kind_run(bs, i, k),
        blocks_wf(bs),
    ensures
        forall|j: int|
            0 <= j < g ==> {
                &&& (#[trigger] bs.subrange(i, i + g)[j]).is_kanji == k
                &&& bs.subrange(i, i + g)[j].text.len() >= 1
                &&& bs.subrange(i, i + g)[j].units.len() >= 1
                &&& (!bs.subrange(i, i + g)[j].is_kanji ==> lit_structure(
                    bs.subrange(i, i + g)[j],
                ))
                &&& (bs.subrange(i, i + g)[j].is_kanji ==> forall|ui: int, kk: int|
                    0 <= ui < bs.subrange(i, i + g)[j].units.len() && 0 <= kk < bs.subrange(
                        i,
                        i + g,
                    )[j].units[ui].len() ==> (#[trigger] bs.subrange(
                        i,
                        i + g,
                    )[j].units[ui][kk]).len() >= 1)
            },
    decreases g,
{
    if g > 0 {
        assert(bs[i].is_kanji == k);
        lemma_run_members(bs, i + 1, k, g - 1);
        assert forall|j: int| 0 <= j < g implies ((#[trigger] bs.subrange(i, i + g)[j]).is_kanji
            == k) by {
            if j > 0 {
                assert(bs.subrange(i, i + g)[j] == bs.subrange(i + 1, i + g)[j - 1]);
                assert(bs.subrange(i + 1, i + g) =~= bs.subrange(i + 1, i + 1 + (g - 1)));
            }
        };
    }
}

/// The texts of a shifted block list.
proof fn lemma_texts_shift(co: Seq<BlockV>, rest: Seq<BlockV>)
    requires
        co.len() == rest.len() + 1,
        forall|j: int| 1 <= j < co.len() ==> co[j] == rest[j - 1],
    ensures
        texts_from(co, 1) == texts_from(rest, 0),
{
    lemma_texts_shift_rec(co, rest, 1);
}

proof fn lemma_texts_shift_rec(co: Seq<BlockV>, rest: Seq<BlockV>, i: int)
    requires
        1 <= i <= co.len(),
        co.len() == rest.len() + 1,
        forall|j: int| 1 <= j < co.len() ==> co[j] == rest[j - 1],
    ensures
        texts_from(co, i) == texts_from(rest, i - 1),
    decreases co.len() - i,
{
    if i < co.len() {
        lemma_texts_shift_rec(co, rest, i + 1);
    }
}

/// The texts of a block list split at `g`.
proof fn lemma_texts_split(bs: Seq<BlockV>, g: int)
    requires
        0 <= g <= bs.len(),
    ensures
        texts_from(bs, 0) == concat_texts(bs.subrange(0, g)) + texts_from(bs.skip(g), 0),
    decreases g,
{
    if g == 0 {
        assert(bs.subrange(0, 0) =~= Seq::<BlockV>::empty());
        assert(bs.skip(0) =~= bs);
        assert(concat_texts(Seq::<BlockV>::empty()) + texts_from(bs, 0) =~= texts_from(bs, 0));
    } else {
        lemma_texts_split(bs.skip(1), g - 1);
        assert(bs.skip(1).skip(g - 1) =~= bs.skip(g));
        assert(bs.skip(1).subrange(0, g - 1) =~= bs.subrange(1, g));
        lemma_texts_shift(bs, bs.skip(1));
        assert(texts_from(bs.skip(1), 0) == concat_texts(bs.subrange(1, g)) + texts_from(
            bs.skip(g),
            0,
        ));
        assert(texts_from(bs, 0) == bs[0].text + texts_from(bs, 1));
        assert(concat_texts(bs.subrange(0, g)) == bs[0].text + concat_texts(bs.subrange(1, g)))
            by {
            assert(bs.subrange(0, g).drop_first() =~= bs.subrange(1, g));
            assert(bs.subrange(0, g)[0] == bs[0]);
        };
        assert(bs[0].text + (concat_texts(bs.subrange(1, g)) + texts_from(bs.skip(g), 0)) =~= (
        bs[0].text + concat_texts(bs.subrange(1, g))) + texts_from(bs.skip(g), 0));
    }
}

/// A matching plan assigns exactly one capture and one choice list per block.
proof fn lemma_plan_len(
    blocks: Seq<BlockV>,
    i: int,
    caps: Seq<Seq<char>>,
    chs: Seq<Seq<int>>,
    kana: Seq<char>,
    pos: int,
    wi: int,
)
    requires
        plan_match(blocks, i, caps, chs, kana, pos, wi),
    ensures
        caps.len() == blocks.len() - i,
        chs.len() == blocks.len() - i,
    decreases blocks.len() - i,
{
    if i < blocks.len() {
        lemma_plan_len(
            blocks,
            i + 1,
            caps.drop_first(),
            chs.drop_first(),
            kana,
            pos + caps[0].len(),
            wi,
        );
    }
}

/// A block whose alternatives are all nonempty consumes a nonempty capture.
proof fn lemma_take_nonempty(us: Seq<Seq<Seq<char>>>, ch: Seq<int>, c: Seq<char>)
    requires
        units_take(us, 0, ch, c),
        us.len() >= 1,
        forall|ui: int, k: int|
            0 <= ui < us.len() && 0 <= k < us[ui].len() ==> (#[trigger] us[ui][k]).len() >= 1,
    ensures
        c.len() >= 1,
{
    assert(us[0][ch[0]].len() >= 1);
}

/// A literal block's units consume exactly its own text.
proof fn lemma_lit_take(b: BlockV, ui: int, ch: Seq<int>, c: Seq<char>)
    requires
        lit_structure(b),
        0 <= ui <= b.units.len(),
        units_take(b.units, ui, ch, c),
    ensures
        c == b.text.skip(ui),
    decreases b.units.len() - ui,
{
    if ui == b.units.len() {
        assert(c =~= b.text.skip(ui));
    } else {
        assert(b.units[ui] == seq![seq![b.text[ui]]]);
        assert(ch[0] == 0);
        assert(c.subrange(0, 1) == seq![b.text[ui]]);
        lemma_lit_take(b, ui + 1, ch.drop_first(), c.skip(1));
        assert(c =~= c.subrange(0, 1) + c.skip(1));
        assert(b.text.skip(ui) =~= seq![b.text[ui]] + b.text.skip(ui + 1));
    }
}

/// What every capture of a plan looks like, when the pronunciation is plain
/// and the wildcard does not stand after a literal block.
proof fn lemma_caps_wf(
    blocks: Seq<BlockV>,
    caps: Seq<Seq<char>>,
    chs: Seq<Seq<int>>,
    kana: Seq<char>,
    pos: int,
    i: int,
    wi: int,
)
    requires
        0 <= i <= blocks.len(),
        caps.len() == blocks.len(),
        chs.len() == blocks.len(),
        plan_match(blocks, i, caps.skip(i), chs.skip(i), kana, pos, wi),
        all_body(kana),
        blocks_wf(blocks),
        attempt_allowed(blocks, wi),
    ensures
        forall|j: int| i <= j < blocks.len() ==> all_body(#[trigger] caps[j]),
        forall|j: int|
            i <= j < blocks.len() && (#[trigger] blocks[j]).is_kanji ==> caps[j].len() >= 1,
        forall|j: int|
            i <= j < blocks.len() && !(#[trigger] blocks[j]).is_kanji ==> caps[j]
                == blocks[j].text,
        sel_from(blocks, caps, i) == kana.skip(pos),
    decreases blocks.len() - i,
{
    if i == blocks.len() {
        assert(kana.skip(pos) =~= Seq::<char>::empty());
    } else {
        let cap = caps[i];
        assert(caps.skip(i)[0] == cap);
        assert(chs.skip(i)[0] == chs[i]);
        assert(kana.subrange(pos, pos + cap.len()) == cap);
        assert(all_body(cap)) by {
            assert(forall|q: int|
                0 <= q < cap.len() ==> cap[q] == kana[pos + q] && is_body_char(kana[pos + q]));
        };
        if i + 1 == wi {
            assert(blocks[i].is_kanji);
            assert(cap.len() >= 1);
        } else {
            assert(units_take(blocks[i].units, 0, chs[i], cap));
            if blocks[i].is_kanji {
                lemma_take_nonempty(blocks[i].units, chs[i], cap);
            } else {
                lemma_lit_take(blocks[i], 0, chs[i], cap);
                assert(blocks[i].text.skip(0) =~= blocks[i].text);
            }
        }
        assert(caps.skip(i).drop_first() =~= caps.skip(i + 1));
        assert(chs.skip(i).drop_first() =~= chs.skip(i + 1));
        lemma_caps_wf(blocks, caps, chs, kana, pos + cap.len(), i + 1, wi);
        assert(sel_from(blocks, caps, i) =~= kana.skip(pos)) by {
            assert(sel_from(blocks, caps, i) == (if blocks[i].is_kanji {
                caps[i]
            } else {
                blocks[i].text
            }) + sel_from(blocks, caps, i + 1));
            assert(sel_from(blocks, caps, i + 1) == kana.skip(pos + cap.len()));
        };
    }
}

/// A body run continues through a wholly-plain prefix.
proof fn lemma_body_run_through(x: Seq<char>, y: Seq<char>, i: int)
    requires
        all_body(x),
        0 <= i <= x.len(),
    ensures
        body_run(x + y, i) == x.len() - i + body_run(x + y, x.len() as int),
    decreases x.len() - i,
{
    if i < x.len() {
        assert((x + y)[i] == x[i]);
        lemma_body_run_through(x, y, i + 1);
    }
}

/// The body run of a concatenation past the plain prefix is the run of the tail.
proof fn lemma_body_run_tail(x: Seq<char>, y: Seq<char>)
    ensures
        body_run(x + y, x.len() as int) == body_run(y, 0),
{
    crate::japanese::lemma_body_run_skip(x + y, x.len() as int, 0);
    assert((x + y).skip(x.len() as int) =~= y);
}

/// No annotated run can begin with the string: its leading body run is not
/// followed by an opening bracket.
pub open spec fn no_leading_bracket(v: Seq<char>) -> bool {
    body_run(v, 0) >= v.len() || v[body_run(v, 0)] != '['
}

/// A rendering that starts outside a reading block never begins with a
/// bracket reachable over body characters.
proof fn lemma_nb_render(blocks: Seq<BlockV>, caps: Seq<Seq<char>>, i: int)
    requires
        0 <= i,
        caps.len() == blocks.len(),
        forall|j: int|
            i <= j < blocks.len() ==> (#[trigger] blocks[j]).text.len() >= 1 && all_body(
                blocks[j].text,
            ),
        forall|j: int|
            i <= j < blocks.len() && (#[trigger] blocks[j]).is_kanji ==> caps[j].len() >= 1
                && all_body(caps[j]),
    ensures
        no_leading_bracket(spec_render(blocks, caps, i, false)),
    decreases blocks.len() - i,
{
    if i >= blocks.len() {
    } else if blocks[i].is_kanji {
        let v = spec_render(blocks, caps, i, false);
        assert(v[0] == ' ');
        assert(!is_body_char(' '));
        assert(body_run(v, 0) == 0);
    } else {
        let w = spec_render(blocks, caps, i + 1, false);
        let v = spec_render(blocks, caps, i, false);
        lemma_nb_render(blocks, caps, i + 1);
        assert(v =~= blocks[i].text + w);
        lemma_body_run_through(blocks[i].text, w, 0);
        lemma_body_run_tail(blocks[i].text, w);
        crate::japanese::lemma_body_run_bounds(w, 0);
        if body_run(w, 0) < w.len() {
            assert(v[blocks[i].text.len() + body_run(w, 0)] == w[body_run(w, 0)]);
        }
    }
}

/// Scanning a plain prefix followed by a safe tail leaves the prefix as it is.
proof fn lemma_emit(t: Seq<char>, v: Seq<char>, keep_kanji: bool)
    requires
        all_body(t),
        no_leading_bracket(v),
    ensures
        spec_strip_furigana(t + v, keep_kanji) == t + spec_strip_furigana(v, keep_kanji),
    decreases t.len(),
{
    if t.len() == 0 {
        assert(t + v =~= v);
        assert(t + spec_strip_furigana(v, keep_kanji) =~= spec_strip_furigana(v, keep_kanji));
    } else {
        let s = t + v;
        assert(s[0] == t[0]);
        assert(is_body_char(t[0]));
        assert(is_space_char(' '));
        assert(s[0] != ' ');
        lemma_body_run_through(t, v, 0);
        lemma_body_run_tail(t, v);
        crate::japanese::lemma_body_run_bounds(v, 0);
        assert(!run_match(s)) by {
            let j = body_run(s, 0);
            assert(j == t.len() + body_run(v, 0));
            if j < s.len() {
                assert(s[j] == v[j - t.len()]);
            }
        };
        assert(s.skip(1) =~= t.skip(1) + v);
        assert(all_body(t.skip(1))) by {
            assert(forall|q: int| 0 <= q < t.skip(1).len() ==> t.skip(1)[q] == t[q + 1]);
        };
        lemma_emit(t.skip(1), v, keep_kanji);
        assert(spec_strip_furigana(s, keep_kanji) == seq![s[0]] + spec_strip_furigana(
            s.skip(1),
            keep_kanji,
        ));
        assert(seq![t[0]] + (t.skip(1) + spec_strip_furigana(v, keep_kanji)) =~= t
            + spec_strip_furigana(v, keep_kanji));
    }
}

/// Stripping the rendered display string gives back the spelling (kept
/// parts) and the pronunciation (captures and literals).
proof fn lemma_render_strip(blocks: Seq<BlockV>, caps: Seq<Seq<char>>, i: int, prev_kanji: bool)
    requires
        0 <= i <= blocks.len(),
        caps.len() == blocks.len(),
        forall|j: int|
            i <= j < blocks.len() ==> (#[trigger] blocks[j]).text.len() >= 1 && all_body(
                blocks[j].text,
            ),
        forall|j: int|
            i <= j < blocks.len() && (#[trigger] blocks[j]).is_kanji ==> caps[j].len() >= 1
                && all_body(caps[j]),
    ensures
        spec_strip_furigana(spec_render(blocks, caps, i, prev_kanji), true) == texts_from(
            blocks,
            i,
        ),
        spec_strip_furigana(spec_render(blocks, caps, i, prev_kanji), false) == sel_from(
            blocks,
            caps,
            i,
        ),
    decreases blocks.len() - i,
{
    if i == blocks.len() {
        assert(spec_render(blocks, caps, i, prev_kanji) =~= Seq::<char>::empty());
    } else if blocks[i].is_kanji {
        let text = blocks[i].text;
        let cap = caps[i];
        let w = spec_render(blocks, caps, i + 1, true);
        let v1 = text + seq!['['] + cap + seq![']'] + w;
        lemma_render_strip(blocks, caps, i + 1, true);
        // the annotated run at the head of v1
        let tail1 = seq!['['] + cap + seq![']'] + w;
        assert(v1 =~= text + tail1);
        lemma_body_run_through(text, tail1, 0);
        lemma_body_run_tail(text, tail1);
        assert(!is_body_char('['));
        assert(body_run(tail1, 0) == 0);
        let j = text.len() as int;
        assert(body_run(v1, 0) == j);
        assert(v1[j] == '[');
        crate::japanese::lemma_body_run_skip(v1, j + 1, 0);
        let tail2 = seq![']'] + w;
        assert(v1.skip(j + 1) =~= cap + tail2);
        lemma_body_run_through(cap, tail2, 0);
        lemma_body_run_tail(cap, tail2);
        assert(!is_body_char(']'));
        assert(body_run(tail2, 0) == 0);
        let kk = cap.len() as int;
        assert(body_run(v1, j + 1) == kk);
        assert(v1[j + 1 + kk] == ']');
        assert(run_match(v1));
        assert(run_kanji(v1) =~= text);
        assert(run_kana(v1) =~= cap);
        assert(v1.skip(run_len(v1)) =~= w);
        if prev_kanji {
            let v = spec_render(blocks, caps, i, true);
            assert(v =~= v1);
            assert(v1[0] == text[0]);
            assert(is_space_char(' '));
            assert(v1[0] != ' ');
            assert(spec_strip_furigana(v1, true) == text + spec_strip_furigana(w, true));
            assert(spec_strip_furigana(v1, false) == cap + spec_strip_furigana(w, false));
            assert(texts_from(blocks, i) == text + texts_from(blocks, i + 1));
            assert(sel_from(blocks, caps, i) == cap + sel_from(blocks, caps, i + 1));
        } else {
            let v = spec_render(blocks, caps, i, false);
            assert(v =~= seq![' '] + v1);
            assert(v[0] == ' ');
            assert(v.skip(1) =~= v1);
            assert(spec_strip_furigana(v, true) == run_kanji(v1) + spec_strip_furigana(
                v1.skip(run_len(v1)),
                true,
            ));
            assert(spec_strip_furigana(v, false) == run_kana(v1) + spec_strip_furigana(
                v1.skip(run_len(v1)),
                false,
            ));
            assert(texts_from(blocks, i) == text + texts_from(blocks, i + 1));
            assert(sel_from(blocks, caps, i) == cap + sel_from(blocks, caps, i + 1));
        }
    } else {
        let text = blocks[i].text;
        let w = spec_render(blocks, caps, i + 1, false);
        let v = spec_render(blocks, caps, i, prev_kanji);
        assert(v =~= text + w);
        lemma_render_strip(blocks, caps, i + 1, false);
        lemma_nb_render(blocks, caps, i + 1);
        lemma_emit(text, w, true);
        lemma_emit(text, w, false);
        assert(texts_from(blocks, i) == text + texts_from(blocks, i + 1));
        assert(sel_from(blocks, caps, i) == text + sel_from(blocks, caps, i + 1));
    }
}

/// Whether some alignment of the spelling with the pronunciation exists:
/// first with one block per character, then with adjacent same-kind blocks
/// combined, in both cases allowing at most one wildcard position.
pub open spec fn spec_alignable(
    kanji: Seq<char>,
    kana: Seq<char>,
    t: Seq<(char, Seq<Seq<char>>)>,
) -> bool {
    ||| some_attempt_matches(spec_build(kanji, t), kana)
    ||| some_attempt_matches(spec_coalesce(spec_build(kanji, t)), kana)
}

/// Aligns a kanji spelling with its kana pronunciation and produces the
/// annotated display string, every maximal run of reading characters being
/// followed by the kana slice it consumed in brackets.
///
/// Returns `None` exactly when no placement of reading boundaries (at
/// per-character granularity, then with adjacent runs combined, with at most
/// one free boundary) reproduces the pronunciation.
///
/// For plain inputs (no whitespace or brackets) over a table of nonempty
/// readings, stripping the annotations from a successful result yields the
/// spelling, and replacing each run by its bracketed kana yields the
/// pronunciation.
pub fn to_furigana(
    kanji: &str,
    kana: &str,
    kanji_readings: &Vec<(char, Vec<String>)>,
) -> (r: Option<String>)
    ensures
        r is Some <==> spec_alignable(kanji@, kana@, table_views(kanji_readings@)),
        r is Some ==> spec_to_furigana(kanji@, kana@, table_views(kanji_readings@)) == Some(
            r->0@,
        ),
        r is None ==> spec_to_furigana(kanji@, kana@, table_views(kanji_readings@)) is None,
        (r is Some && all_body(kanji@) && all_body(kana@) && table_ok(
            table_views(kanji_readings@),
        )) ==> {
            &&& spec_strip_furigana(r->0@, true) == kanji@
            &&& spec_strip_furigana(r->0@, false) == kana@
        },
{
    let ghost tv = table_views(kanji_readings@);
    let kj = str_to_chars(kanji);
    let kn = str_to_chars(kana);
    let blocks = build_blocks(&kj, kanji_readings);
    let ghost bv = views(blocks@);
    let first = blocks_check(&blocks, &kn);
    match first {
        Some(out) => {
            let result = Some(chars_to_string(&out));
            proof {
                if all_body(kanji@) && all_body(kana@) && table_ok(tv) {
                    lemma_build_wf(kanji@, tv);
                    lemma_align_strip(bv, kana@, out@);
                }
                let sr = spec_search(bv, kana@, 0);
                assert(result->0@ == spec_render(bv, (sr->0).1, 0, true));
                assert(spec_to_furigana(kanji@, kana@, tv) == Some(result->0@));
            }
            return result;
        },
        None => {},
    }
    let blocks2 = coalesce(&blocks);
    let ghost bv2 = views(blocks2@);
    let second = blocks_check(&blocks2, &kn);
    match second {
        Some(out) => {
            let result = Some(chars_to_string(&out));
            proof {
                if all_body(kanji@) && all_body(kana@) && table_ok(tv) {
                    lemma_build_wf(kanji@, tv);
                    lemma_coalesce_wf(bv);
                    lemma_align_strip(bv2, kana@, out@);
                }
                assert(spec_search(bv, kana@, 0) is None);
                let sr = spec_search(bv2, kana@, 0);
                assert(result->0@ == spec_render(bv2, (sr->0).1, 0, true));
                assert(bv2 == spec_coalesce(spec_build(kanji@, tv)));
                assert(spec_to_furigana(kanji@, kana@, tv) == Some(result->0@));
            }
            return result;
        },
        None => {},
    }
    proof {
        assert(spec_search(bv, kana@, 0) is None);
        assert(spec_search(bv2, kana@, 0) is None);
        assert(spec_to_furigana(kanji@, kana@, tv) is None);
    }
    None
}

/// From a successful attempt over well-formed plain blocks, stripping the
/// rendered string yields the spelled text and the pronunciation.
proof fn lemma_align_strip(bs: Seq<BlockV>, kana: Seq<char>, out: Seq<char>)
    requires
        blocks_wf(bs),
        blocks_plain(bs),
        all_body(kana),
        exists|wi: int, caps: Seq<Seq<char>>, chs: Seq<Seq<int>>|
            {
                &&& attempt_allowed(bs, wi)
                &&& plan_match(bs, 0, caps, chs, kana, 0, wi)
                &&& out == spec_render(bs, caps, 0, true)
            },
    ensures
        spec_strip_furigana(out, true) == texts_from(bs, 0),
        spec_strip_furigana(out, false) == kana,
{
    let (wi, caps, chs) = choose|wi: int, caps: Seq<Seq<char>>, chs: Seq<Seq<int>>|
        {
            &&& attempt_allowed(bs, wi)
            &&& plan_match(bs, 0, caps, chs, kana, 0, wi)
            &&& out == spec_render(bs, caps, 0, true)
        };
    lemma_plan_len(bs, 0, caps, chs, kana, 0, wi);
    assert(caps.skip(0) =~= caps);
    assert(chs.skip(0) =~= chs);
    lemma_caps_wf(bs, caps, chs, kana, 0, 0, wi);
    assert(kana.skip(0) =~= kana);
    lemma_render_strip(bs, caps, 0, true);
}

/// The deterministic result of trying block `bi`'s unit `ui` from its
/// alternative `k` on: alternatives are tried in listed order, and the
/// first whose text matches and whose continuation succeeds is taken.
pub open spec fn spec_alt_try(
    blocks: Seq<BlockV>,
    bi: int,
    ui: int,
    k: int,
    kana: Seq<char>,
    pos: int,
    wi: int,
) -> Option<Seq<Seq<char>>>
    decreases blocks.len() - bi, 0int, blocks[bi].units.len() - ui, 0int, blocks[bi].units[ui].len() - k,
{
    if bi < 0 || bi >= blocks.len() || ui < 0 || ui >= blocks[bi].units.len() || k < 0 {
        None
    } else if k >= blocks[bi].units[ui].len() {
        None
    } else {
        let a = blocks[bi].units[ui][k];
        if 0 <= pos && pos + a.len() <= kana.len() && kana.subrange(pos, pos + a.len()) == a {
            match spec_units_try(blocks, bi, ui + 1, kana, pos + a.len(), wi) {
                Some(caps) => Some(seq![a + caps[0]] + caps.drop_first()),
                None => spec_alt_try(blocks, bi, ui, k + 1, kana, pos, wi),
            }
        } else {
            spec_alt_try(blocks, bi, ui, k + 1, kana, pos, wi)
        }
    }
}

/// The deterministic result of matching block `bi` from unit `ui` on and
/// then the following blocks.
pub open spec fn spec_units_try(
    blocks: Seq<BlockV>,
    bi: int,
    ui: int,
    kana: Seq<char>,
    pos: int,
    wi: int,
) -> Option<Seq<Seq<char>>>
    decreases blocks.len() - bi, 0int, blocks[bi].units.len() - ui, 1int, 0int,
{
    if bi < 0 || bi >= blocks.len() || ui < 0 {
        None
    } else if ui >= blocks[bi].units.len() {
        match spec_blocks_try(blocks, bi + 1, kana, pos, wi) {
            Some(caps) => Some(seq![Seq::<char>::empty()] + caps),
            None => None,
        }
    } else {
        spec_alt_try(blocks, bi, ui, 0, kana, pos, wi)
    }
}

/// The deterministic result of letting the wildcard block `bi` take the
/// slice of length `len`, longer slices having been tried first.
pub open spec fn spec_wild_try(
    blocks: Seq<BlockV>,
    bi: int,
    len: int,
    kana: Seq<char>,
    pos: int,
    wi: int,
) -> Option<Seq<Seq<char>>>
    decreases blocks.len() - bi, 1int, len, 0int, 0int,
{
    if bi < 0 || bi >= blocks.len() || len < 1 || pos < 0 || pos + len > kana.len() {
        None
    } else {
        match spec_blocks_try(blocks, bi + 1, kana, pos + len, wi) {
            Some(caps) => Some(seq![kana.subrange(pos, pos + len)] + caps),
            None => spec_wild_try(blocks, bi, len - 1, kana, pos, wi),
        }
    }
}

/// The deterministic result of matching blocks `bi..` against the rest of
/// `kana`: the wildcard block takes the longest slice that works, and each
/// reading block the first listed alternatives that work.
pub open spec fn spec_blocks_try(
    blocks: Seq<BlockV>,
    bi: int,
    kana: Seq<char>,
    pos: int,
    wi: int,
) -> Option<Seq<Seq<char>>>
    decreases blocks.len() - bi, 2int, 0int, 0int, 0int,
{
    if bi < 0 || bi > blocks.len() || pos < 0 || pos > kana.len() {
        None
    } else if bi == blocks.len() {
        if pos == kana.len() {
            Some(Seq::<Seq<char>>::empty())
        } else {
            None
        }
    } else if bi + 1 == wi {
        spec_wild_try(blocks, bi, kana.len() - pos, kana, pos, wi)
    } else {
        spec_units_try(blocks, bi, 0, kana, pos, wi)
    }
}

/// The deterministic result of one wildcard-position attempt.
pub open spec fn spec_attempt(blocks: Seq<BlockV>, kana: Seq<char>, wi: int) -> Option<
    Seq<Seq<char>>,
> {
    if attempt_allowed(blocks, wi) {
        spec_blocks_try(blocks, 0, kana, 0, wi)
    } else {
        None
    }
}

/// The deterministic result of the whole search from wildcard position
/// `wi` on: positions are tried in ascending order and the first success
/// is kept, together with the position that produced it.
pub open spec fn spec_search(blocks: Seq<BlockV>, kana: Seq<char>, wi: int) -> Option<
    (int, Seq<Seq<char>>),
>
    decreases blocks.len() + 1 - wi,
{
    if wi < 0 || wi > blocks.len() {
        None
    } else {
        match spec_attempt(blocks, kana, wi) {
            Some(caps) => Some((wi, caps)),
            None => spec_search(blocks, kana, wi + 1),
        }
    }
}

/// The one display string the aligner returns: the rendering of the first
/// successful attempt, per-character blocks before coalesced runs,
/// wildcard positions in ascending order, readings in listed order, and
/// the wildcard slice longest first.
pub open spec fn spec_to_furigana(
    kanji: Seq<char>,
    kana: Seq<char>,
    t: Seq<(char, Seq<Seq<char>>)>,
) -> Option<Seq<char>> {
    let bs1 = spec_build(kanji, t);
    match spec_search(bs1, kana, 0) {
        Some(p) => Some(spec_render(bs1, p.1, 0, true)),
        None => {
            let bs2 = spec_coalesce(bs1);
            match spec_search(bs2, kana, 0) {
                Some(p) => Some(spec_render(bs2, p.1, 0, true)),
                None => None,
            }
        },
    }
}

} // verus!
