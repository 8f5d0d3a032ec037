//! The saved record of the player's state: its fifteen integers, each as
//! sixteen little-endian bytes, in a fixed order. Loading at start-up falls
//! back to a new game where the record is missing or damaged.
use crate::state::{income_of, Player, PlayerView, TIER_COUNT};
use crate::timer::{fires_after, timer_after, IntervalTimer};
use vstd::arithmetic::div_mod::*;
use vstd::arithmetic::power::*;
use vstd::prelude::*;

verus! {

/// Bytes of one integer in the record.
pub const FIELD_BYTES: usize = 16;

/// Integers in the record.
pub const RECORD_FIELDS: usize = 15;

/// Bytes of the whole record.
pub const RECORD_BYTES: usize = 240;

/// The number that little-endian bytes stand for.
pub open spec fn le_value(b: Seq<u8>) -> nat
    decreases b.len(),
{
    if b.len() == 0 {
        0
    } else {
        (b[0] + 256 * le_value(b.drop_first())) as nat
    }
}

/// The lowest `n` bytes of `x`, least significant first.
pub open spec fn le_bytes(x: nat, n: nat) -> Seq<u8>
    decreases n,
{
    if n == 0 {
        Seq::empty()
    } else {
        seq![(x % 256) as u8] + le_bytes(x / 256, (n - 1) as nat)
    }
}

/// The record's integers, in their order.
pub open spec fn record_fields(m: PlayerView) -> Seq<u128> {
    seq![m.droodles, m.dps, m.click_strength] + m.owned + m.prices + m.values
}

/// The bytes of a sequence of integers, sixteen each.
pub open spec fn fields_bytes(f: Seq<u128>) -> Seq<u8>
    decreases f.len(),
{
    if f.len() == 0 {
        Seq::empty()
    } else {
        fields_bytes(f.drop_last()) + le_bytes(f.last() as nat, FIELD_BYTES as nat)
    }
}

/// The record of the player's state.
pub open spec fn record_bytes(m: PlayerView) -> Seq<u8> {
    fields_bytes(record_fields(m))
}

/// The integer at place `i` of a record.
pub open spec fn field_at(b: Seq<u8>, i: int) -> nat {
    le_value(b.subrange(16 * i, 16 * i + 16))
}

/// The state that the fifteen integers of a record stand for.
pub open spec fn fields_view(f: Seq<u128>) -> PlayerView {
    PlayerView {
        droodles: f[0],
        dps: f[1],
        click_strength: f[2],
        owned: f.subrange(3, 7),
        prices: f.subrange(7, 11),
        values: f.subrange(11, 15),
    }
}

/// What a record is read as: the state it holds where it has the record's
/// length and that state keeps the income rate equal to what the owned
/// generators yield; `None` otherwise.
pub open spec fn decoded(b: Seq<u8>) -> Option<PlayerView> {
    if b.len() != RECORD_BYTES {
        None
    } else {
        let m = fields_view(Seq::new(15, |i: int| field_at(b, i) as u128));
        if m.wf() {
            Some(m)
        } else {
            None
        }
    }
}

proof fn lemma_le_bytes_len(x: nat, n: nat)
    ensures
        le_bytes(x, n).len() == n,
    decreases n,
{
    if n > 0 {
        lemma_le_bytes_len(x / 256, (n - 1) as nat);
    }
}

/// The bytes of `x` stand for `x` modulo `256^n`.
proof fn lemma_le_round_trip(x: nat, n: nat)
    ensures
        le_value(le_bytes(x, n)) == x % (pow(256, n) as nat),
    decreases n,
{
    reveal(pow);
    if n == 0 {
        assert(le_bytes(x, n) =~= Seq::<u8>::empty());
        assert(x % 1 == 0);
    } else {
        let m = (n - 1) as nat;
        lemma_le_round_trip(x / 256, m);
        assert(le_bytes(x, n).drop_first() =~= le_bytes(x / 256, m));
        lemma_pow_positive(256, m);
        lemma_breakdown(x as int, 256, pow(256, m));
    }
}

/// `le_value` of `n` bytes is below `256^n`.
proof fn lemma_le_value_bound(b: Seq<u8>)
    ensures
        le_value(b) < pow(256, b.len()),
    decreases b.len(),
{
    reveal(pow);
    if b.len() > 0 {
        lemma_le_value_bound(b.drop_first());
        let v = le_value(b.drop_first());
        let p = pow(256, (b.len() - 1) as nat);
        assert(b[0] + 256 * v < 256 * p) by (nonlinear_arith)
            requires
                b[0] < 256,
                v < p,
        ;
    }
}

proof fn lemma_pow_256_16()
    ensures
        pow(256, 16) == u128::MAX + 1,
{
    reveal_with_fuel(pow, 17);
}

proof fn lemma_fields_bytes_len(f: Seq<u128>)
    ensures
        fields_bytes(f).len() == 16 * f.len(),
    decreases f.len(),
{
    if f.len() > 0 {
        lemma_fields_bytes_len(f.drop_last());
        lemma_le_bytes_len(f.last() as nat, 16);
    }
}

/// Each sixteen-byte block of the bytes of a sequence of integers reads as
/// the integer at its place.
proof fn lemma_fields_bytes_block(f: Seq<u128>, i: int)
    requires
        0 <= i < f.len(),
    ensures
        field_at(fields_bytes(f), i) == f[i],
    decreases f.len(),
{
    let init = f.drop_last();
    lemma_fields_bytes_len(init);
    lemma_le_bytes_len(f.last() as nat, 16);
    if i < f.len() - 1 {
        lemma_fields_bytes_block(init, i);
        assert(fields_bytes(f).subrange(16 * i, 16 * i + 16) =~= fields_bytes(init).subrange(
            16 * i,
            16 * i + 16,
        ));
    } else {
        assert(fields_bytes(f).subrange(16 * i, 16 * i + 16) =~= le_bytes(f.last() as nat, 16));
        lemma_le_round_trip(f.last() as nat, 16);
        lemma_pow_256_16();
        lemma_small_mod(f.last() as nat, (u128::MAX + 1) as nat);
    }
}

/// Reading the record of a state gives that same state back, whatever the
/// counts and values it holds, those beyond 64 bits included.
pub proof fn lemma_record_round_trip(m: PlayerView)
    requires
        m.wf(),
    ensures
        decoded(record_bytes(m)) == Some(m),
{
    let f = record_fields(m);
    let b = record_bytes(m);
    assert(f.len() == 15);
    lemma_fields_bytes_len(f);
    let g = Seq::new(15, |i: int| field_at(b, i) as u128);
    assert forall|i: int| 0 <= i < 15 implies g[i] == f[i] by {
        lemma_fields_bytes_block(f, i);
    }
    assert(g =~= f);
    assert(fields_view(f).owned =~= m.owned);
    assert(fields_view(f).prices =~= m.prices);
    assert(fields_view(f).values =~= m.values);
}

/// Appends the lowest `n` bytes of `x`, least significant first.
fn push_le_bytes(out: &mut Vec<u8>, x: u128, n: usize)
    ensures
        final(out)@ == old(out)@ + le_bytes(x as nat, n as nat),
    decreases n,
{
    if n == 0 {
        assert(old(out)@ + le_bytes(x as nat, 0) =~= old(out)@);
        return;
    }
    out.push((x % 256) as u8);
    push_le_bytes(out, x / 256, n - 1);
    assert(old(out)@ + le_bytes(x as nat, n as nat) =~= old(out)@.push((x % 256) as u8)
        + le_bytes((x / 256) as nat, (n - 1) as nat));
}

/// The integer of the `n` little-endian bytes of `b` from `start` on.
fn read_le(b: &Vec<u8>, start: usize, n: usize) -> (r: u128)
    requires
        n <= 16,
        start + n <= b@.len(),
    ensures
        r == le_value(b@.subrange(start as int, start + n)),
    decreases n,
{
    if n == 0 {
        return 0;
    }
    let len = b.len();
    assert(start < len);
    let rest = read_le(b, start + 1, n - 1);
    proof {
        let s = b@.subrange(start as int, start + n);
        assert(s.drop_first() =~= b@.subrange(start + 1, start + n));
        lemma_le_value_bound(s);
        lemma_pow_increases(256, n as nat, 16);
        lemma_pow_256_16();
    }
    b[start] as u128 + 256 * rest
}

/// The record of the player's state.
pub fn encode(player: &Player) -> (r: Vec<u8>)
    ensures
        r@ == record_bytes(player@),
{
    let fields: Vec<u128> = vec![
        player.droodles,
        player.dps,
        player.click_strength,
        player.autoclickers[0],
        player.autoclickers[1],
        player.autoclickers[2],
        player.autoclickers[3],
        player.autoclicker_prices[0],
        player.autoclicker_prices[1],
        player.autoclicker_prices[2],
        player.autoclicker_prices[3],
        player.autoclicker_values[0],
        player.autoclicker_values[1],
        player.autoclicker_values[2],
        player.autoclicker_values[3],
    ];
    assert(fields@ =~= record_fields(player@));
    let mut out: Vec<u8> = Vec::new();
    let mut i: usize = 0;
    while i < fields.len()
        invariant
            i <= fields@.len(),
            out@ == fields_bytes(fields@.subrange(0, i as int)),
        decreases fields@.len() - i,
    {
        proof {
            assert(fields@.subrange(0, i + 1).drop_last() =~= fields@.subrange(0, i as int));
        }
        push_le_bytes(&mut out, fields[i], FIELD_BYTES);
        i = i + 1;
    }
    assert(fields@.subrange(0, fields@.len() as int) =~= fields@);
    out
}

/// Whether the income rate is what the owned generators yield, computed
/// without overflow.
fn income_matches(dps: u128, owned: &[u128; 4], values: &[u128; 4]) -> (r: bool)
    ensures
        r == (dps == income_of(owned@, values@, TIER_COUNT as nat)),
{
    let mut acc: u128 = 0;
    let mut i: usize = 0;
    while i < TIER_COUNT
        invariant
            i <= TIER_COUNT,
            acc == income_of(owned@, values@, i as nat),
        decreases TIER_COUNT - i,
    {
        let o = owned[i];
        let v = values[i];
        if v != 0 && o > u128::MAX / v {
            proof {
                assert(o * v > u128::MAX) by (nonlinear_arith)
                    requires
                        v > 0,
                        o > u128::MAX / v,
                ;
                lemma_income_of_grows(owned@, values@, (i + 1) as nat, TIER_COUNT as nat);
            }
            return false;
        }
        assert(o * v <= u128::MAX) by (nonlinear_arith)
            requires
                v == 0 || o <= u128::MAX / v,
        ;
        let product = o * v;
        if acc > u128::MAX - product {
            proof {
                lemma_income_of_grows(owned@, values@, (i + 1) as nat, TIER_COUNT as nat);
            }
            return false;
        }
        acc = acc + product;
        i = i + 1;
    }
    acc == dps
}

/// The income of more tiers is never less.
proof fn lemma_income_of_grows(owned: Seq<u128>, values: Seq<u128>, n: nat, k: nat)
    requires
        n <= k <= owned.len(),
        k <= values.len(),
    ensures
        income_of(owned, values, n) <= income_of(owned, values, k),
    decreases k - n,
{
    if n < k {
        lemma_income_of_grows(owned, values, n, (k - 1) as nat);
        let j = k - 1;
        assert(owned[j] * values[j] >= 0) by (nonlinear_arith);
    }
}

/// Reads a record: the state it holds, or `None` where it has another
/// length or its income rate is not what its generators yield.
pub fn decode(bytes: &Vec<u8>) -> (r: Option<Player>)
    ensures
        match r {
            Some(p) => decoded(bytes@) == Some(p@),
            None => decoded(bytes@) is None,
        },
{
    if bytes.len() != RECORD_BYTES {
        return None;
    }
    let ghost g = Seq::new(15, |i: int| field_at(bytes@, i) as u128);
    let p = Player {
        droodles: read_le(bytes, 0, 16),
        dps: read_le(bytes, 16, 16),
        click_strength: read_le(bytes, 32, 16),
        autoclickers: [
            read_le(bytes, 48, 16),
            read_le(bytes, 64, 16),
            read_le(bytes, 80, 16),
            read_le(bytes, 96, 16),
        ],
        autoclicker_prices: [
            read_le(bytes, 112, 16),
            read_le(bytes, 128, 16),
            read_le(bytes, 144, 16),
            read_le(bytes, 160, 16),
        ],
        autoclicker_values: [
            read_le(bytes, 176, 16),
            read_le(bytes, 192, 16),
            read_le(bytes, 208, 16),
            read_le(bytes, 224, 16),
        ],
    };
    assert(p.autoclickers@ =~= fields_view(g).owned);
    assert(p.autoclicker_prices@ =~= fields_view(g).prices);
    assert(p.autoclicker_values@ =~= fields_view(g).values);
    assert(p@ == fields_view(g));
    if income_matches(p.dps, &p.autoclickers, &p.autoclicker_values) {
        Some(p)
    } else {
        None
    }
}

/// The player with which the game starts: the one in the saved record where
/// it reads, else a new game. The second part is the record to write at
/// once, given only for a new game, so that a crash before the first save
/// still finds a record.
pub fn setup(saved: Option<Vec<u8>>) -> (r: (Player, Option<Vec<u8>>))
    ensures
        r.0.wf(),
        match saved {
            Some(b) if decoded(b@) is Some => r.0@ == decoded(b@).unwrap() && r.1 is None,
            _ => r.0.is_fresh() && r.1 is Some && r.1.unwrap()@ == record_bytes(r.0@),
        },
{
    if let Some(b) = saved {
        if let Some(p) = decode(&b) {
            return (p, None);
        }
    }
    let p = Player::new();
    let bytes = encode(&p);
    (p, Some(bytes))
}

/// Lets `delta` nanoseconds pass on the save timer and gives the record to
/// write where at least one interval was completed.
pub fn save(timer: &mut IntervalTimer, player: &Player, delta: u64) -> (r: Option<Vec<u8>>)
    requires
        old(timer).wf(),
    ensures
        final(timer).wf(),
        *final(timer) == timer_after(*old(timer), delta as int),
        fires_after(*old(timer), delta as int) > 0 ==> r is Some && r.unwrap()@ == record_bytes(
            player@,
        ),
        fires_after(*old(timer), delta as int) == 0 ==> r is None,
{
    let fires = timer.tick(delta);
    if fires > 0 {
        Some(encode(player))
    } else {
        None
    }
}

} // verus!
