//! The Liu and Layland table, checked entry by entry against the bound it
//! floors.
use vstd::prelude::*;

use crate::model::liu_layland_table;

verus! {

/// `x` to the power `k`.
pub open spec fn power(x: int, k: nat) -> int
    decreases k,
{
    if k == 0 {
        1
    } else {
        x * power(x, (k - 1) as nat)
    }
}

/// Each entry of the Liu and Layland table is `⌊n·(2^(1/n) − 1)·10⁶⌋`,
/// floored and never rounded up: with `b` the entry,
/// `(b + n·10⁶)ⁿ ≤ 2·(n·10⁶)ⁿ < (b + 1 + n·10⁶)ⁿ`.
pub proof fn lemma_liu_layland_table_is_the_floored_bound(n: nat)
    requires
        1 <= n <= 16,
    ensures
        power(liu_layland_table(n as int) + n * 1_000_000, n) <= 2 * power((n * 1_000_000) as int, n),
        2 * power((n * 1_000_000) as int, n) < power(liu_layland_table(n as int) + 1 + n * 1_000_000, n),
{
    // Each power is multiplied out one factor at a time.
    if n == 1 {
        assert(liu_layland_table(1) == 1000000);
        assert(power(2000000, 0) == 1);
        assert(power(2000000, 1) == 2000000 * power(2000000, 0));
        assert(power(2000000, 1) == 2000000);
        assert(power(1000000, 0) == 1);
        assert(power(1000000, 1) == 1000000 * power(1000000, 0));
        assert(power(1000000, 1) == 1000000);
        assert(power(2000001, 0) == 1);
        assert(power(2000001, 1) == 2000001 * power(2000001, 0));
        assert(power(2000001, 1) == 2000001);
    } else if n == 2 {
        assert(liu_layland_table(2) == 828427);
        assert(power(2828427, 0) == 1);
        assert(power(2828427, 1) == 2828427 * power(2828427, 0));
        assert(power(2828427, 1) == 2828427);
        assert(power(2828427, 2) == 2828427 * power(2828427, 1));
        assert(power(2828427, 2) == 7999999294329);
        assert(power(2000000, 0) == 1);
        assert(power(2000000, 1) == 2000000 * power(2000000, 0));
        assert(power(2000000, 1) == 2000000);
        assert(power(2000000, 2) == 2000000 * power(2000000, 1));
        assert(power(2000000, 2) == 4000000000000);
        assert(power(2828428, 0) == 1);
        assert(power(2828428, 1) == 2828428 * power(2828428, 0));
        assert(power(2828428, 1) == 2828428);
        assert(power(2828428, 2) == 2828428 * power(2828428, 1));
        assert(power(2828428, 2) == 8000004951184);
    } else if n == 3 {
        assert(liu_layland_table(3) == 779763);
        assert(power(3779763, 0) == 1);
        assert(power(3779763, 1) == 3779763 * power(3779763, 0));
        assert(power(3779763, 1) == 3779763);
        assert(power(3779763, 2) == 3779763 * power(3779763, 1));
        assert(power(3779763, 2) == 14286608336169);
        assert(power(3779763, 3) == 3779763 * power(3779763, 2));
        assert(power(3779763, 3) == 53999993584543147947);
        assert(power(3000000, 0) == 1);
        assert(power(3000000, 1) == 3000000 * power(3000000, 0));
        assert(power(3000000, 1) == 3000000);
        assert(power(3000000, 2) == 3000000 * power(3000000, 1));
        assert(power(3000000, 2) == 9000000000000);
        assert(power(3000000, 3) == 3000000 * power(3000000, 2));
        assert(power(3000000, 3) == 27000000000000000000);
        assert(power(3779764, 0) == 1);
        assert(power(3779764, 1) == 3779764 * power(3779764, 0));
        assert(power(3779764, 1) == 3779764);
        assert(power(3779764, 2) == 3779764 * power(3779764, 1));
        assert(power(3779764, 2) == 14286615895696);
        assert(power(3779764, 3) == 3779764 * power(3779764, 2));
        assert(power(3779764, 3) == 54000036444379495744);
    } else if n == 4 {
        assert(liu_layland_table(4) == 756828);
        assert(power(4756828, 0) == 1);
        assert(power(4756828, 1) == 4756828 * power(4756828, 0));
        assert(power(4756828, 1) == 4756828);
        assert(power(4756828, 2) == 4756828 * power(4756828, 1));
        assert(power(4756828, 2) == 22627412621584);
        assert(power(4756828, 3) == 4756828 * power(4756828, 2));
        assert(power(4756828, 3) == 107634709925904175552);
        assert(power(4756828, 4) == 4756828 * power(4756828, 3));
        assert(power(4756828, 4) == 511999801947418907582669056);
        assert(power(4000000, 0) == 1);
        assert(power(4000000, 1) == 4000000 * power(4000000, 0));
        assert(power(4000000, 1) == 4000000);
        assert(power(4000000, 2) == 4000000 * power(4000000, 1));
        assert(power(4000000, 2) == 16000000000000);
        assert(power(4000000, 3) == 4000000 * power(4000000, 2));
        assert(power(4000000, 3) == 64000000000000000000);
        assert(power(4000000, 4) == 4000000 * power(4000000, 3));
        assert(power(4000000, 4) == 256000000000000000000000000);
        assert(power(4756829, 0) == 1);
        assert(power(4756829, 1) == 4756829 * power(4756829, 0));
        assert(power(4756829, 1) == 4756829);
        assert(power(4756829, 2) == 4756829 * power(4756829, 1));
        assert(power(4756829, 2) == 22627422135241);
        assert(power(4756829, 3) == 4756829 * power(4756829, 2));
        assert(power(4756829, 3) == 107634777808156310789);
        assert(power(4756829, 4) == 4756829 * power(4756829, 3));
        assert(power(4756829, 4) == 512000232486394375694128081);
    } else if n == 5 {
        assert(liu_layland_table(5) == 743491);
        assert(power(5743491, 0) == 1);
        assert(power(5743491, 1) == 5743491 * power(5743491, 0));
        assert(power(5743491, 1) == 5743491);
        assert(power(5743491, 2) == 5743491 * power(5743491, 1));
        assert(power(5743491, 2) == 32987688867081);
        assert(power(5743491, 3) == 5743491 * power(5743491, 2));
        assert(power(5743491, 3) == 189464494118879919771);
        assert(power(5743491, 4) == 5743491 * power(5743491, 3));
        assert(power(5743491, 4) == 1088187616791339749285460561);
        assert(power(5743491, 5) == 5743491 * power(5743491, 4));
        assert(power(5743491, 5) == 6249995783352508727963299162958451);
        assert(power(5000000, 0) == 1);
        assert(power(5000000, 1) == 5000000 * power(5000000, 0));
        assert(power(5000000, 1) == 5000000);
        assert(power(5000000, 2) == 5000000 * power(5000000, 1));
        assert(power(5000000, 2) == 25000000000000);
        assert(power(5000000, 3) == 5000000 * power(5000000, 2));
        assert(power(5000000, 3) == 125000000000000000000);
        assert(power(5000000, 4) == 5000000 * power(5000000, 3));
        assert(power(5000000, 4) == 625000000000000000000000000);
        assert(power(5000000, 5) == 5000000 * power(5000000, 4));
        assert(power(5000000, 5) == 3125000000000000000000000000000000);
        assert(power(5743492, 0) == 1);
        assert(power(5743492, 1) == 5743492 * power(5743492, 0));
        assert(power(5743492, 1) == 5743492);
        assert(power(5743492, 2) == 5743492 * power(5743492, 1));
        assert(power(5743492, 2) == 32987700354064);
        assert(power(5743492, 3) == 5743492 * power(5743492, 2));
        assert(power(5743492, 3) == 189464593081963751488);
        assert(power(5743492, 4) == 5743492 * power(5743492, 3));
        assert(power(5743492, 4) == 1088188374649514150961316096);
        assert(power(5743492, 5) == 5743492 * power(5743492, 4));
        assert(power(5743492, 5) == 6250001224292487329933111306847232);
    } else if n == 6 {
        assert(liu_layland_table(6) == 734772);
        assert(power(6734772, 0) == 1);
        assert(power(6734772, 1) == 6734772 * power(6734772, 0));
        assert(power(6734772, 1) == 6734772);
        assert(power(6734772, 2) == 6734772 * power(6734772, 1));
        assert(power(6734772, 2) == 45357153891984);
        assert(power(6734772, 3) == 6734772 * power(6734772, 2));
        assert(power(6734772, 3) == 305470090031424867648);
        assert(power(6734772, 4) == 6734772 * power(6734772, 3));
        assert(power(6734772, 4) == 2057271409181119318739456256);
        assert(power(6734772, 5) == 6734772 * power(6734772, 4));
        assert(power(6734772, 5) == 13855253882953545316505565288133632);
        assert(power(6734772, 6) == 6734772 * power(6734772, 5));
        assert(power(6734772, 6) == 93311975903806814298332818946694317051904);
        assert(power(6000000, 0) == 1);
        assert(power(6000000, 1) == 6000000 * power(6000000, 0));
        assert(power(6000000, 1) == 6000000);
        assert(power(6000000, 2) == 6000000 * power(6000000, 1));
        assert(power(6000000, 2) == 36000000000000);
        assert(power(6000000, 3) == 6000000 * power(6000000, 2));
        assert(power(6000000, 3) == 216000000000000000000);
        assert(power(6000000, 4) == 6000000 * power(6000000, 3));
        assert(power(6000000, 4) == 1296000000000000000000000000);
        assert(power(6000000, 5) == 6000000 * power(6000000, 4));
        assert(power(6000000, 5) == 7776000000000000000000000000000000);
        assert(power(6000000, 6) == 6000000 * power(6000000, 5));
        assert(power(6000000, 6) == 46656000000000000000000000000000000000000);
        assert(power(6734773, 0) == 1);
        assert(power(6734773, 1) == 6734773 * power(6734773, 0));
        assert(power(6734773, 1) == 6734773);
        assert(power(6734773, 2) == 6734773 * power(6734773, 1));
        assert(power(6734773, 2) == 45357167361529);
        assert(power(6734773, 3) == 6734773 * power(6734773, 2));
        assert(power(6734773, 3) == 305470226102906747917);
        assert(power(6734773, 4) == 6734773 * power(6734773, 3));
        assert(power(6734773, 4) == 2057272631061751587389217841);
        assert(power(6734773, 5) == 6734773 * power(6734773, 4));
        assert(power(6734773, 5) == 13855264169313645923456044806685093);
        assert(power(6734773, 6) == 6734773 * power(6734773, 5));
        assert(power(6734773, 6) == 93312059035360971096851837250852983838889);
    } else if n == 7 {
        assert(liu_layland_table(7) == 728626);
        assert(power(7728626, 0) == 1);
        assert(power(7728626, 1) == 7728626 * power(7728626, 0));
        assert(power(7728626, 1) == 7728626);
        assert(power(7728626, 2) == 7728626 * power(7728626, 1));
        assert(power(7728626, 2) == 59731659847876);
        assert(power(7728626, 3) == 7728626 * power(7728626, 2));
        assert(power(7728626, 3) == 461643659323450498376);
        assert(power(7728626, 4) == 7728626 * power(7728626, 3));
        assert(power(7728626, 4) == 3567871188182361931461711376);
        assert(power(7728626, 5) == 7728626 * power(7728626, 4));
        assert(power(7728626, 5) == 27574742029637095164905200545049376);
        assert(power(7728626, 6) == 7728626 * power(7728626, 5));
        assert(power(7728626, 6) == 213114868193546024255960620467682778637376);
        assert(power(7728626, 7) == 7728626 * power(7728626, 6));
        assert(power(7728626, 7) == 1647085111307212835261247906322665282729068725376);
        assert(power(7000000, 0) == 1);
        assert(power(7000000, 1) == 7000000 * power(7000000, 0));
        assert(power(7000000, 1) == 7000000);
        assert(power(7000000, 2) == 7000000 * power(7000000, 1));
        assert(power(7000000, 2) == 49000000000000);
        assert(power(7000000, 3) == 7000000 * power(7000000, 2));
        assert(power(7000000, 3) == 343000000000000000000);
        assert(power(7000000, 4) == 7000000 * power(7000000, 3));
        assert(power(7000000, 4) == 2401000000000000000000000000);
        assert(power(7000000, 5) == 7000000 * power(7000000, 4));
        assert(power(7000000, 5) == 16807000000000000000000000000000000);
        assert(power(7000000, 6) == 7000000 * power(7000000, 5));
        assert(power(7000000, 6) == 117649000000000000000000000000000000000000);
        assert(power(7000000, 7) == 7000000 * power(7000000, 6));
        assert(power(7000000, 7) == 823543000000000000000000000000000000000000000000);
        assert(power(7728627, 0) == 1);
        assert(power(7728627, 1) == 7728627 * power(7728627, 0));
        assert(power(7728627, 1) == 7728627);
        assert(power(7728627, 2) == 7728627 * power(7728627, 1));
        assert(power(7728627, 2) == 59731675305129);
        assert(power(7728627, 3) == 7728627 * power(7728627, 2));
        assert(power(7728627, 3) == 461643838518453227883);
        assert(power(7728627, 4) == 7728627 * power(7728627, 3));
        assert(power(7728627, 4) == 3567873034757357615253706641);
        assert(power(7728627, 5) == 7728627 * power(7728627, 4));
        assert(power(7728627, 5) == 27574759868997652513905408995711907);
        assert(power(7728627, 6) == 7728627 * power(7728627, 5));
        assert(power(7728627, 6) == 213115033642051720155587219410301928661689);
        assert(power(7728627, 7) == 7728627 * power(7728627, 6));
        assert(power(7728627, 7) == 1647086603111869259790915584789383564006803471003);
    } else if n == 8 {
        assert(liu_layland_table(8) == 724061);
        assert(power(8724061, 0) == 1);
        assert(power(8724061, 1) == 8724061 * power(8724061, 0));
        assert(power(8724061, 1) == 8724061);
        assert(power(8724061, 2) == 8724061 * power(8724061, 1));
        assert(power(8724061, 2) == 76109240331721);
        assert(power(8724061, 3) == 8724061 * power(8724061, 2));
        assert(power(8724061, 3) == 663981655317594238981);
        assert(power(8724061, 4) == 8724061 * power(8724061, 3));
        assert(power(8724061, 4) == 5792616463871666514118821841);
        assert(power(8724061, 5) == 8724061 * power(8724061, 4));
        assert(power(8724061, 5) == 50535139380420714840829962989016301);
        assert(power(8724061, 6) == 8724061 * power(8724061, 5));
        assert(power(8724061, 6) == 440871638598292521935005887743920539918361);
        assert(power(8724061, 7) == 8724061 * power(8724061, 6));
        assert(power(8724061, 7) == 3846191068301458457204829400037115169400716384021);
        assert(power(8724061, 8) == 8724061 * power(8724061, 7));
        assert(power(8724061, 8) == 33554405497517089969620821180517195001877183177898629281);
        assert(power(8000000, 0) == 1);
        assert(power(8000000, 1) == 8000000 * power(8000000, 0));
        assert(power(8000000, 1) == 8000000);
        assert(power(8000000, 2) == 8000000 * power(8000000, 1));
        assert(power(8000000, 2) == 64000000000000);
        assert(power(8000000, 3) == 8000000 * power(8000000, 2));
        assert(power(8000000, 3) == 512000000000000000000);
        assert(power(8000000, 4) == 8000000 * power(8000000, 3));
        assert(power(8000000, 4) == 4096000000000000000000000000);
        assert(power(8000000, 5) == 8000000 * power(8000000, 4));
        assert(power(8000000, 5) == 32768000000000000000000000000000000);
        assert(power(8000000, 6) == 8000000 * power(8000000, 5));
        assert(power(8000000, 6) == 262144000000000000000000000000000000000000);
        assert(power(8000000, 7) == 8000000 * power(8000000, 6));
        assert(power(8000000, 7) == 2097152000000000000000000000000000000000000000000);
        assert(power(8000000, 8) == 8000000 * power(8000000, 7));
        assert(power(8000000, 8) == 16777216000000000000000000000000000000000000000000000000);
        assert(power(8724062, 0) == 1);
        assert(power(8724062, 1) == 8724062 * power(8724062, 0));
        assert(power(8724062, 1) == 8724062);
        assert(power(8724062, 2) == 8724062 * power(8724062, 1));
        assert(power(8724062, 2) == 76109257779844);
        assert(power(8724062, 3) == 8724062 * power(8724062, 2));
        assert(power(8724062, 3) == 663981883645341406328);
        assert(power(8724062, 4) == 8724062 * power(8724062, 3));
        assert(power(8724062, 4) == 5792619119798744439972664336);
        assert(power(8724062, 5) == 8724062 * power(8724062, 4));
        assert(power(8724062, 5) == 50535168343509674016476801972452832);
        assert(power(8724062, 6) == 8724062 * power(8724062, 5));
        assert(power(8724062, 6) == 440871941809215693719532641969400798443584);
        assert(power(8724062, 7) == 8724062 * power(8724062, 6));
        assert(power(8724062, 7) == 3846194154403989883382213379564854668471330318208);
        assert(power(8724062, 8) == 8724062 * power(8724062, 7));
        assert(power(8724062, 8) == 33554436267057980789999199220553325148733330918526320896);
    } else if n == 9 {
        assert(liu_layland_table(9) == 720537);
        assert(power(9720537, 0) == 1);
        assert(power(9720537, 1) == 9720537 * power(9720537, 0));
        assert(power(9720537, 1) == 9720537);
        assert(power(9720537, 2) == 9720537 * power(9720537, 1));
        assert(power(9720537, 2) == 94488839568369);
        assert(power(9720537, 3) == 9720537 * power(9720537, 2));
        assert(power(9720537, 3) == 918482261111394894153);
        assert(power(9720537, 4) == 9720537 * power(9720537, 3));
        assert(power(9720537, 4) == 8928140802976975190225320161);
        assert(power(9720537, 5) == 9720537 * power(9720537, 4));
        assert(power(9720537, 5) == 86786323016547397484667262961846457);
        assert(power(9720537, 6) == 9720537 * power(9720537, 5));
        assert(power(9720537, 6) == 843609663976300589503415062309358073587409);
        assert(power(9720537, 7) == 9720537 * power(9720537, 6));
        assert(power(9720537, 7) == 8200338952239197003389757739535420600555131918633);
        assert(power(9720537, 8) == 9720537 * power(9720537, 7));
        assert(power(9720537, 8) == 79711698197782347321739265528190418758258380354953065921);
        assert(power(9720537, 9) == 9720537 * power(9720537, 8));
        assert(power(9720537, 9) == 774840511664376625087817434919599508585144641800394410548519577);
        assert(power(9000000, 0) == 1);
        assert(power(9000000, 1) == 9000000 * power(9000000, 0));
        assert(power(9000000, 1) == 9000000);
        assert(power(9000000, 2) == 9000000 * power(9000000, 1));
        assert(power(9000000, 2) == 81000000000000);
        assert(power(9000000, 3) == 9000000 * power(9000000, 2));
        assert(power(9000000, 3) == 729000000000000000000);
        assert(power(9000000, 4) == 9000000 * power(9000000, 3));
        assert(power(9000000, 4) == 6561000000000000000000000000);
        assert(power(9000000, 5) == 9000000 * power(9000000, 4));
        assert(power(9000000, 5) == 59049000000000000000000000000000000);
        assert(power(9000000, 6) == 9000000 * power(9000000, 5));
        assert(power(9000000, 6) == 531441000000000000000000000000000000000000);
        assert(power(9000000, 7) == 9000000 * power(9000000, 6));
        assert(power(9000000, 7) == 4782969000000000000000000000000000000000000000000);
        assert(power(9000000, 8) == 9000000 * power(9000000, 7));
        assert(power(9000000, 8) == 43046721000000000000000000000000000000000000000000000000);
        assert(power(9000000, 9) == 9000000 * power(9000000, 8));
        assert(power(9000000, 9) == 387420489000000000000000000000000000000000000000000000000000000);
        assert(power(9720538, 0) == 1);
        assert(power(9720538, 1) == 9720538 * power(9720538, 0));
        assert(power(9720538, 1) == 9720538);
        assert(power(9720538, 2) == 9720538 * power(9720538, 1));
        assert(power(9720538, 2) == 94488859009444);
        assert(power(9720538, 3) == 9720538 * power(9720538, 2));
        assert(power(9720538, 3) == 918482544577942760872);
        assert(power(9720538, 4) == 9720538 * power(9720538, 3));
        assert(power(9720538, 4) == 8928144476906586568881189136);
        assert(power(9720538, 5) == 9720538 * power(9720538, 4));
        assert(power(9720538, 5) == 86786367657260597193099216481675168);
        assert(power(9720538, 6) == 9720538 * power(9720538, 5));
        assert(power(9720538, 6) == 843610184694372610918214271580349774200384);
        assert(power(9720538, 7) == 9720538 * power(9720538, 6));
        assert(power(9720538, 7) == 8200344857508667350589716719039110033406252286592);
        assert(power(9720538, 8) == 9720538 * power(9720538, 7));
        assert(power(9720538, 8) == 79711763800517586310766663776654992565906744789404426496);
        assert(power(9720538, 9) == 9720538 * power(9720538, 8));
        assert(power(9720538, 9) == 774841229069955617402087164374198368126614017181707725122574848);
    } else if n == 10 {
        assert(liu_layland_table(10) == 717734);
        assert(power(10717734, 0) == 1);
        assert(power(10717734, 1) == 10717734 * power(10717734, 0));
        assert(power(10717734, 1) == 10717734);
        assert(power(10717734, 2) == 10717734 * power(10717734, 1));
        assert(power(10717734, 2) == 114869822094756);
        assert(power(10717734, 3) == 10717734 * power(10717734, 2));
        assert(power(10717734, 3) == 1231144197838917602904);
        assert(power(10717734, 4) == 10717734 * power(10717734, 3));
        assert(power(10717734, 4) == 13195076028080893715842699536);
        assert(power(10717734, 5) == 10717734 * power(10717734, 4));
        assert(power(10717734, 5) == 141421314978747549328673639468771424);
        assert(power(10717734, 6) == 10717734 * power(10717734, 5));
        assert(power(10717734, 6) == 1515716035872431886856602640638193429233216);
        assert(power(10717734, 7) == 10717734 * power(10717734, 6));
        assert(power(10717734, 7) == 16245041292015182896447163246057747415069433052544);
        assert(power(10717734, 8) == 10717734 * power(10717734, 7));
        assert(power(10717734, 8) == 174110031386835054245470240725823485433901774987974615296);
        assert(power(10717734, 9) == 10717734 * power(10717734, 8));
        assert(power(10717734, 9) == 1866065003135749213278520745015343047833433806448965125494859264);
        assert(power(10717734, 10) == 10717734 * power(10717734, 9));
        assert(power(10717734, 10) == 19999988330318125958628453258556272705428019844127492790330519958987776);
        assert(power(10000000, 0) == 1);
        assert(power(10000000, 1) == 10000000 * power(10000000, 0));
        assert(power(10000000, 1) == 10000000);
        assert(power(10000000, 2) == 10000000 * power(10000000, 1));
        assert(power(10000000, 2) == 100000000000000);
        assert(power(10000000, 3) == 10000000 * power(10000000, 2));
        assert(power(10000000, 3) == 1000000000000000000000);
        assert(power(10000000, 4) == 10000000 * power(10000000, 3));
        assert(power(10000000, 4) == 10000000000000000000000000000);
        assert(power(10000000, 5) == 10000000 * power(10000000, 4));
        assert(power(10000000, 5) == 100000000000000000000000000000000000);
        assert(power(10000000, 6) == 10000000 * power(10000000, 5));
        assert(power(10000000, 6) == 1000000000000000000000000000000000000000000);
        assert(power(10000000, 7) == 10000000 * power(10000000, 6));
        assert(power(10000000, 7) == 10000000000000000000000000000000000000000000000000);
        assert(power(10000000, 8) == 10000000 * power(10000000, 7));
        assert(power(10000000, 8) == 100000000000000000000000000000000000000000000000000000000);
        assert(power(10000000, 9) == 10000000 * power(10000000, 8));
        assert(power(10000000, 9) == 1000000000000000000000000000000000000000000000000000000000000000);
        assert(power(10000000, 10) == 10000000 * power(10000000, 9));
        assert(power(10000000, 10) == 10000000000000000000000000000000000000000000000000000000000000000000000);
        assert(power(10717735, 0) == 1);
        assert(power(10717735, 1) == 10717735 * power(10717735, 0));
        assert(power(10717735, 1) == 10717735);
        assert(power(10717735, 2) == 10717735 * power(10717735, 1));
        assert(power(10717735, 2) == 114869843530225);
        assert(power(10717735, 3) == 10717735 * power(10717735, 2));
        assert(power(10717735, 3) == 1231144542448416040375);
        assert(power(10717735, 4) == 10717735 * power(10717735, 3));
        assert(power(10717735, 4) == 13195080952658374290488550625);
        assert(power(10717735, 5) == 10717735 * power(10717735, 4));
        assert(power(10717735, 5) == 141421380954140001176269306132834375);
        assert(power(10717735, 6) == 10717735 * power(10717735, 5));
        assert(power(10717735, 6) == 1515716884400519685506942711765593630140625);
        assert(power(10717735, 7) == 10717735 * power(10717735, 6));
        assert(power(10717735, 7) == 16245051902030403851546752644885014645535231484375);
        assert(power(10717735, 8) == 10717735 * power(10717735, 7));
        assert(power(10717735, 8) == 174110161347207830423857434958426692441965544213187890625);
        assert(power(10717735, 9) == 10717735 * power(10717735, 8));
        assert(power(10717735, 9) == 1866066570126616516407841665664153306519489582007731316927734375);
        assert(power(10717735, 10) == 10717735 * power(10717735, 9));
        assert(power(10717735, 10) == 20000006990975992269482398894546994138649661675219632206032471181640625);
    } else if n == 11 {
        assert(liu_layland_table(11) == 715451);
        assert(power(11715451, 0) == 1);
        assert(power(11715451, 1) == 11715451 * power(11715451, 0));
        assert(power(11715451, 1) == 11715451);
        assert(power(11715451, 2) == 11715451 * power(11715451, 1));
        assert(power(11715451, 2) == 137251792133401);
        assert(power(11715451, 3) == 11715451 * power(11715451, 2));
        assert(power(11715451, 3) == 1607966645401044878851);
        assert(power(11715451, 4) == 11715451 * power(11715451, 3));
        assert(power(11715451, 4) == 18838054443830316626979826801);
        assert(power(11715451, 5) == 11715451 * power(11715451, 4));
        assert(power(11715451, 5) == 220696303772026326757867438875602251);
        assert(power(11715451, 6) == 11715451 * power(11715451, 5));
        assert(power(11715451, 6) == 2585556732722289601841784844642613267080201);
        assert(power(11715451, 7) == 11715451 * power(11715451, 6));
        assert(power(11715451, 7) == 30290963209928080438186940099953148242428007885651);
        assert(power(11715451, 8) == 11715451 * power(11715451, 7));
        assert(power(11715451, 8) == 354872295228715139897637625580936210529901447411957893601);
        assert(power(11715451, 9) == 11715451 * power(11715451, 8));
        assert(power(11715451, 9) == 4157488986009546014428918618249804708588744441983869516545729051);
        assert(power(11715451, 10) == 11715451 * power(11715451, 9));
        assert(power(11715451, 10) == 48706858498634521864287289055093292823040714661584366111485177956267001);
        assert(power(11715451, 11) == 11715451 * power(11715451, 10));
        assert(power(11715451, 11) == 570622814104686307809486384847781772496985163622773223545165139572926193132451);
        assert(power(11000000, 0) == 1);
        assert(power(11000000, 1) == 11000000 * power(11000000, 0));
        assert(power(11000000, 1) == 11000000);
        assert(power(11000000, 2) == 11000000 * power(11000000, 1));
        assert(power(11000000, 2) == 121000000000000);
        assert(power(11000000, 3) == 11000000 * power(11000000, 2));
        assert(power(11000000, 3) == 1331000000000000000000);
        assert(power(11000000, 4) == 11000000 * power(11000000, 3));
        assert(power(11000000, 4) == 14641000000000000000000000000);
        assert(power(11000000, 5) == 11000000 * power(11000000, 4));
        assert(power(11000000, 5) == 161051000000000000000000000000000000);
        assert(power(11000000, 6) == 11000000 * power(11000000, 5));
        assert(power(11000000, 6) == 1771561000000000000000000000000000000000000);
        assert(power(11000000, 7) == 11000000 * power(11000000, 6));
        assert(power(11000000, 7) == 19487171000000000000000000000000000000000000000000);
        assert(power(11000000, 8) == 11000000 * power(11000000, 7));
        assert(power(11000000, 8) == 214358881000000000000000000000000000000000000000000000000);
        assert(power(11000000, 9) == 11000000 * power(11000000, 8));
        assert(power(11000000, 9) == 2357947691000000000000000000000000000000000000000000000000000000);
        assert(power(11000000, 10) == 11000000 * power(11000000, 9));
        assert(power(11000000, 10) == 25937424601000000000000000000000000000000000000000000000000000000000000);
        assert(power(11000000, 11) == 11000000 * power(11000000, 10));
        assert(power(11000000, 11) == 285311670611000000000000000000000000000000000000000000000000000000000000000000);
        assert(power(11715452, 0) == 1);
        assert(power(11715452, 1) == 11715452 * power(11715452, 0));
        assert(power(11715452, 1) == 11715452);
        assert(power(11715452, 2) == 11715452 * power(11715452, 1));
        assert(power(11715452, 2) == 137251815564304);
        assert(power(11715452, 3) == 11715452 * power(11715452, 2));
        assert(power(11715452, 3) == 1607967057156456425408);
        assert(power(11715452, 4) == 11715452 * power(11715452, 3));
        assert(power(11715452, 4) == 18838060875697721741959004416);
        assert(power(11715452, 5) == 11715452 * power(11715452, 4));
        assert(power(11715452, 5) == 220696397962314625577277102203436032);
        assert(power(11715452, 6) == 11715452 * power(11715452, 5));
        assert(power(11715452, 6) == 2585558056900394804848562181563449067966464);
        assert(power(11715452, 7) == 11715452 * power(11715452, 6));
        assert(power(11715452, 7) == 30290981308829844117252697507121872510205846601728);
        assert(power(11715452, 8) == 11715452 * power(11715452, 7));
        assert(power(11715452, 8) == 354872537556493214923156349515205955543436105981907501056);
        assert(power(11715452, 9) == 11715452 * power(11715452, 8));
        assert(power(11715452, 9) == 4157492179861293547757921901240618642283259614697950197061517312);
        assert(power(11715452, 10) == 11715452 * power(11715452, 9));
        assert(power(11715452, 10) == 48706900073540351216667641653733208153974698419532330032064747115905024);
        assert(power(11715452, 11) == 11715452 * power(11715452, 10));
        assert(power(11715452, 11) == 570623349880358454742011355747512020933899188548506874938813005728523745230848);
    } else if n == 12 {
        assert(liu_layland_table(12) == 713557);
        assert(power(12713557, 0) == 1);
        assert(power(12713557, 1) == 12713557 * power(12713557, 0));
        assert(power(12713557, 1) == 12713557);
        assert(power(12713557, 2) == 12713557 * power(12713557, 1));
        assert(power(12713557, 2) == 161634531592249);
        assert(power(12713557, 3) == 12713557 * power(12713557, 2));
        assert(power(12713557, 3) == 2054949830566358419693);
        assert(power(12713557, 4) == 12713557 * power(12713557, 3));
        assert(power(12713557, 4) == 26125721803045740051196878001);
        assert(power(12713557, 5) == 12713557 * power(12713557, 4));
        assert(power(12713557, 5) == 332150853309164789748074426687759557);
        assert(power(12713557, 6) == 12713557 * power(12713557, 5));
        assert(power(12713557, 6) == 4222818806144705176855159863937152330214249);
        assert(power(12713557, 7) == 12713557 * power(12713557, 6));
        assert(power(12713557, 7) == 53687047592592659514143155674277230567861676873693);
        assert(power(12713557, 8) == 12713557 * power(12713557, 7));
        assert(power(12713557, 8) == 682553339730139554514651315824797004626651797049277756001);
        assert(power(12713557, 9) == 12713557 * power(12713557, 8));
        assert(power(12713557, 9) == 8677680790199493844276626838863558731750201340938424559750805557);
        assert(power(12713557, 10) == 12713557 * power(12713557, 9));
        assert(power(12713557, 10) == 110324189354006306360360019083621669158953894509497094130591772244836249);
        assert(power(12713557, 11) == 12713557 * power(12713557, 10));
        assert(power(12713557, 11) == 1402612869830952354271899643140711857287502398218478347563643940165743607327693);
        assert(power(12713557, 12) == 12713557 * power(12713557, 11));
        assert(power(12713557, 12) == 17832198669529393120319989611349099218200527127387322925016198361001770799146242634001);
        assert(power(12000000, 0) == 1);
        assert(power(12000000, 1) == 12000000 * power(12000000, 0));
        assert(power(12000000, 1) == 12000000);
        assert(power(12000000, 2) == 12000000 * power(12000000, 1));
        assert(power(12000000, 2) == 144000000000000);
        assert(power(12000000, 3) == 12000000 * power(12000000, 2));
        assert(power(12000000, 3) == 1728000000000000000000);
        assert(power(12000000, 4) == 12000000 * power(12000000, 3));
        assert(power(12000000, 4) == 20736000000000000000000000000);
        assert(power(12000000, 5) == 12000000 * power(12000000, 4));
        assert(power(12000000, 5) == 248832000000000000000000000000000000);
        assert(power(12000000, 6) == 12000000 * power(12000000, 5));
        assert(power(12000000, 6) == 2985984000000000000000000000000000000000000);
        assert(power(12000000, 7) == 12000000 * power(12000000, 6));
        assert(power(12000000, 7) == 35831808000000000000000000000000000000000000000000);
        assert(power(12000000, 8) == 12000000 * power(12000000, 7));
        assert(power(12000000, 8) == 429981696000000000000000000000000000000000000000000000000);
        assert(power(12000000, 9) == 12000000 * power(12000000, 8));
        assert(power(12000000, 9) == 5159780352000000000000000000000000000000000000000000000000000000);
        assert(power(12000000, 10) == 12000000 * power(12000000, 9));
        assert(power(12000000, 10) == 61917364224000000000000000000000000000000000000000000000000000000000000);
        assert(power(12000000, 11) == 12000000 * power(12000000, 10));
        assert(power(12000000, 11) == 743008370688000000000000000000000000000000000000000000000000000000000000000000);
        assert(power(12000000, 12) == 12000000 * power(12000000, 11));
        assert(power(12000000, 12) == 8916100448256000000000000000000000000000000000000000000000000000000000000000000000000);
        assert(power(12713558, 0) == 1);
        assert(power(12713558, 1) == 12713558 * power(12713558, 0));
        assert(power(12713558, 1) == 12713558);
        assert(power(12713558, 2) == 12713558 * power(12713558, 1));
        assert(power(12713558, 2) == 161634557019364);
        assert(power(12713558, 3) == 12713558 * power(12713558, 2));
        assert(power(12713558, 3) == 2054950315469991337112);
        assert(power(12713558, 4) == 12713558 * power(12713558, 3));
        assert(power(12713558, 4) == 26125730022846032123870964496);
        assert(power(12713558, 5) == 12713558 * power(12713558, 4));
        assert(power(12713558, 5) == 332150983937794354476696691635836768);
        assert(power(12713558, 6) == 12713558 * power(12713558, 5));
        assert(power(12713558, 6) == 4222820799050216917712043037520325628500544);
        assert(power(12713558, 7) == 12713558 * power(12713558, 6));
        assert(power(12713558, 7) == 53687077152331277695913286456010836056828119175552);
        assert(power(12713558, 8) == 12713558 * power(12713558, 7));
        assert(power(12713558, 8) == 682553769226638534201099930329108212836975589169292534016);
        assert(power(12713558, 9) == 12713558 * power(12713558, 8));
        assert(power(12713558, 9) == 8677686933181484149600667628035076352179233697487972450179388928);
        assert(power(12713558, 10) == 12713558 * power(12713558, 9));
        assert(power(12713558, 10) == 110324276130844923262028764727746369237859114008567792047757771540685824);
        assert(power(12713558, 11) == 12713558 * power(12713558, 10));
        assert(power(12713558, 11) == 1402614083397512520897351898034557674594937641776539121131107198433258583201792);
        assert(power(12713558, 12) == 12713558 * power(12713558, 11));
        assert(power(12713558, 12) == 17832215500891112490154695402072435000307866215109253155769356971498742126533808295936);
    } else if n == 13 {
        assert(liu_layland_table(13) == 711958);
        assert(power(13711958, 0) == 1);
        assert(power(13711958, 1) == 13711958 * power(13711958, 0));
        assert(power(13711958, 1) == 13711958);
        assert(power(13711958, 2) == 13711958 * power(13711958, 1));
        assert(power(13711958, 2) == 188017792193764);
        assert(power(13711958, 3) == 13711958 * power(13711958, 2));
        assert(power(13711958, 3) == 2578092069813619829912);
        assert(power(13711958, 4) == 13711958 * power(13711958, 3));
        assert(power(13711958, 4) == 35350690181417422935720487696);
        assert(power(13711958, 5) == 13711958 * power(13711958, 4));
        assert(power(13711958, 5) == 484727179038608083762836027027068768);
        assert(power(13711958, 6) == 13711958 * power(13711958, 5));
        assert(power(13711958, 6) == 6646558720435874423016489563482031809927744);
        assert(power(13711958, 7) == 13711958 * power(13711958, 6));
        assert(power(13711958, 7) == 91137334019150451781676338201903953932393208762752);
        assert(power(13711958, 8) == 13711958 * power(13711958, 7));
        assert(power(13711958, 8) == 1249671296302562190511371119018302536354910518040087388416);
        assert(power(13711958, 9) == 13711958 * power(13711958, 8));
        assert(power(13711958, 9) == 17135440328706288048679919306391965609792006117123920586289878528);
        assert(power(13711958, 10) == 13711958 * power(13711958, 9));
        assert(power(13711958, 10) == 234960438098726816059401008972635763978912376613746279874542190201037824);
        assert(power(13711958, 11) == 13711958 * power(13711958, 10));
        assert(power(13711958, 11) == 3221767658871341955280232140190404744976759393807871212295967781264642199099392);
        assert(power(13711958, 12) == 13711958 * power(13711958, 11));
        assert(power(13711958, 12) == 44176742824202168294440421336540941866122035783998990132411393786053960719078500929536);
        assert(power(13711958, 13) == 13711958 * power(13711958, 12));
        assert(power(13711958, 13) == 605749642182261515162298690868953260148706977544691224738039470315832895113654203448758591488);
        assert(power(13000000, 0) == 1);
        assert(power(13000000, 1) == 13000000 * power(13000000, 0));
        assert(power(13000000, 1) == 13000000);
        assert(power(13000000, 2) == 13000000 * power(13000000, 1));
        assert(power(13000000, 2) == 169000000000000);
        assert(power(13000000, 3) == 13000000 * power(13000000, 2));
        assert(power(13000000, 3) == 2197000000000000000000);
        assert(power(13000000, 4) == 13000000 * power(13000000, 3));
        assert(power(13000000, 4) == 28561000000000000000000000000);
        assert(power(13000000, 5) == 13000000 * power(13000000, 4));
        assert(power(13000000, 5) == 371293000000000000000000000000000000);
        assert(power(13000000, 6) == 13000000 * power(13000000, 5));
        assert(power(13000000, 6) == 4826809000000000000000000000000000000000000);
        assert(power(13000000, 7) == 13000000 * power(13000000, 6));
        assert(power(13000000, 7) == 62748517000000000000000000000000000000000000000000);
        assert(power(13000000, 8) == 13000000 * power(13000000, 7));
        assert(power(13000000, 8) == 815730721000000000000000000000000000000000000000000000000);
        assert(power(13000000, 9) == 13000000 * power(13000000, 8));
        assert(power(13000000, 9) == 10604499373000000000000000000000000000000000000000000000000000000);
        assert(power(13000000, 10) == 13000000 * power(13000000, 9));
        assert(power(13000000, 10) == 137858491849000000000000000000000000000000000000000000000000000000000000);
        assert(power(13000000, 11) == 13000000 * power(13000000, 10));
        assert(power(13000000, 11) == 1792160394037000000000000000000000000000000000000000000000000000000000000000000);
        assert(power(13000000, 12) == 13000000 * power(13000000, 11));
        assert(power(13000000, 12) == 23298085122481000000000000000000000000000000000000000000000000000000000000000000000000);
        assert(power(13000000, 13) == 13000000 * power(13000000, 12));
        assert(power(13000000, 13) == 302875106592253000000000000000000000000000000000000000000000000000000000000000000000000000000);
        assert(power(13711959, 0) == 1);
        assert(power(13711959, 1) == 13711959 * power(13711959, 0));
        assert(power(13711959, 1) == 13711959);
        assert(power(13711959, 2) == 13711959 * power(13711959, 1));
        assert(power(13711959, 2) == 188017819617681);
        assert(power(13711959, 3) == 13711959 * power(13711959, 2));
        assert(power(13711959, 3) == 2578092633867037547079);
        assert(power(13711959, 4) == 13711959 * power(13711959, 3));
        assert(power(13711959, 4) == 35350700493786830297007817761);
        assert(power(13711959, 5) == 13711959 * power(13711959, 4));
        assert(power(13711959, 5) == 484727355792084771772529019818303799);
        assert(power(13711959, 6) == 13711959 * power(13711959, 5));
        assert(power(13711959, 6) == 6646561628799478915069275246058769141432241);
        assert(power(13711959, 7) == 13711959 * power(13711959, 6));
        assert(power(13711959, 7) == 91137380545071674104794384333672754057784089870119);
        assert(power(13711959, 8) == 13711959 * power(13711959, 7));
        assert(power(13711959, 8) == 1249672025401420447386302301413563123057419071151387053121);
        assert(power(13711959, 9) == 13711959 * power(13711959, 8));
        assert(power(13711959, 9) == 17135451575751235716322634318588419587275284949445902065525974039);
        assert(power(13711959, 10) == 13711959 * power(13711959, 9));
        assert(power(13711959, 10) == 234960609453186338341551592548477347255515628940119281840507469457832401);
        assert(power(13711959, 11) == 13711959 * power(13711959, 10));
        assert(power(13711959, 11) == 3221770243437103490699483433409426897996392827886129047706482960399550111383559);
        assert(power(13711959, 12) == 13711959 * power(13711959, 11));
        assert(power(13711959, 12) == 44176781485429582143228198160089291838823720603868658170860338387197254745736794282081);
        assert(power(13711959, 13) == 13711959 * power(13711959, 12));
        assert(power(13711959, 13) == 605750216480169527735077180815019806032985465147702282223851954691374881986098347987329106679);
    } else if n == 14 {
        assert(liu_layland_table(14) == 710592);
        assert(power(14710592, 0) == 1);
        assert(power(14710592, 1) == 14710592 * power(14710592, 0));
        assert(power(14710592, 1) == 14710592);
        assert(power(14710592, 2) == 14710592 * power(14710592, 1));
        assert(power(14710592, 2) == 216401516990464);
        assert(power(14710592, 3) == 14710592 * power(14710592, 2));
        assert(power(14710592, 3) == 3183394424627783794688);
        assert(power(14710592, 4) == 14710592 * power(14710592, 3));
        assert(power(14710592, 4) == 46829616555774079267866935296);
        assert(power(14710592, 5) == 14710592 * power(14710592, 4));
        assert(power(14710592, 5) == 688891382668437724285249195429855232);
        assert(power(14710592, 6) == 14710592 * power(14710592, 5));
        assert(power(14710592, 6) == 10134000062751258639368792532296864937017344);
        assert(power(14710592, 7) == 14710592 * power(14710592, 6));
        assert(power(14710592, 7) == 149077140251108163330229444475266002967567844507648);
        assert(power(14710592, 8) == 14710592 * power(14710592, 7));
        assert(power(14710592, 8) == 2193012986760829738620366624062292261126679792871450607616);
        assert(power(14710592, 9) == 14710592 * power(14710592, 8));
        assert(power(14710592, 9) == 32260519298939967866310856296997764038192046747576418336791068672);
        assert(power(14710592, 10) == 14710592 * power(14710592, 9));
        assert(power(14710592, 10) == 474571337114831899774409552155764931678115617348523678973852000477773824);
        assert(power(14710592, 11) == 14710592 * power(14710592, 10));
        assert(power(14710592, 11) == 6981225315190749226166230962666178357824634175642253643723315447412335793143808);
        assert(power(14710592, 12) == 14710592 * power(14710592, 11));
        assert(power(14710592, 12) == 102697957271842514040447147869549382021188200907129531313327054434180327619934956814336);
        assert(power(14710592, 13) == 14710592 * power(14710592, 12));
        assert(power(14710592, 13) == 1510747748659508312303289489872610182765834978758812426301578460343017654043194216233316646912);
        assert(power(14710592, 14) == 14710592 * power(14710592, 13));
        assert(power(14710592, 14) == 22223993745448573702902271943404100373713629911849556007852589686094312757426580491768097999530491904);
        assert(power(14000000, 0) == 1);
        assert(power(14000000, 1) == 14000000 * power(14000000, 0));
        assert(power(14000000, 1) == 14000000);
        assert(power(14000000, 2) == 14000000 * power(14000000, 1));
        assert(power(14000000, 2) == 196000000000000);
        assert(power(14000000, 3) == 14000000 * power(14000000, 2));
        assert(power(14000000, 3) == 2744000000000000000000);
        assert(power(14000000, 4) == 14000000 * power(14000000, 3));
        assert(power(14000000, 4) == 38416000000000000000000000000);
        assert(power(14000000, 5) == 14000000 * power(14000000, 4));
        assert(power(14000000, 5) == 537824000000000000000000000000000000);
        assert(power(14000000, 6) == 14000000 * power(14000000, 5));
        assert(power(14000000, 6) == 7529536000000000000000000000000000000000000);
        assert(power(14000000, 7) == 14000000 * power(14000000, 6));
        assert(power(14000000, 7) == 105413504000000000000000000000000000000000000000000);
        assert(power(14000000, 8) == 14000000 * power(14000000, 7));
        assert(power(14000000, 8) == 1475789056000000000000000000000000000000000000000000000000);
        assert(power(14000000, 9) == 14000000 * power(14000000, 8));
        assert(power(14000000, 9) == 20661046784000000000000000000000000000000000000000000000000000000);
        assert(power(14000000, 10) == 14000000 * power(14000000, 9));
        assert(power(14000000, 10) == 289254654976000000000000000000000000000000000000000000000000000000000000);
        assert(power(14000000, 11) == 14000000 * power(14000000, 10));
        assert(power(14000000, 11) == 4049565169664000000000000000000000000000000000000000000000000000000000000000000);
        assert(power(14000000, 12) == 14000000 * power(14000000, 11));
        assert(power(14000000, 12) == 56693912375296000000000000000000000000000000000000000000000000000000000000000000000000);
        assert(power(14000000, 13) == 14000000 * power(14000000, 12));
        assert(power(14000000, 13) == 793714773254144000000000000000000000000000000000000000000000000000000000000000000000000000000);
        assert(power(14000000, 14) == 14000000 * power(14000000, 13));
        assert(power(14000000, 14) == 11112006825558016000000000000000000000000000000000000000000000000000000000000000000000000000000000000);
        assert(power(14710593, 0) == 1);
        assert(power(14710593, 1) == 14710593 * power(14710593, 0));
        assert(power(14710593, 1) == 14710593);
        assert(power(14710593, 2) == 14710593 * power(14710593, 1));
        assert(power(14710593, 2) == 216401546411649);
        assert(power(14710593, 3) == 14710593 * power(14710593, 2));
        assert(power(14710593, 3) == 3183395073832378897857);
        assert(power(14710593, 4) == 14710593 * power(14710593, 3));
        assert(power(14710593, 4) == 46829629289353076188162899201);
        assert(power(14710593, 5) == 14710593 * power(14710593, 4));
        assert(power(14710593, 5) == 688891616816552337102055827845936193);
        assert(power(14710593, 6) == 14710593 * power(14710593, 5));
        assert(power(14710593, 6) == 10134004196100257094307142746719634039192449);
        assert(power(14710593, 7) == 14710593 * power(14710593, 6));
        assert(power(14710593, 7) == 149077211189123069309714993939894621459506165912257);
        assert(power(14710593, 8) == 14710593 * power(14710593, 7));
        assert(power(14710593, 8) == 2193014179378235499526008221847256239179861187725686438401);
        assert(power(14710593, 9) == 14710593 * power(14710593, 8));
        assert(power(14710593, 9) == 32260539036062215491678799866248694701285591729129168840936681793);
        assert(power(14710593, 10) == 14710593 * power(14710593, 9));
        assert(power(14710593, 10) == 474571659720123574776381711560838984531868916691385447247301264627333249);
        assert(power(14710593, 11) == 14710593 * power(14710593, 10));
        assert(power(14710593, 11) == 6981230535477231818240417371414897039981619162797877920578019252317996101406657);
        assert(power(14710593, 12) == 14710593 * power(14710593, 11));
        assert(power(14710593, 12) == 102698041046577618044784756101014384492074326984920323353309565967014347223380058617601);
        assert(power(14710593, 13) == 14710593 * power(14710593, 12));
        assert(power(14710593, 13) == 1510749083733497381966284319606289497408417150024080014278932227947399487163824126639670947393);
        assert(power(14710593, 14) == 14710593 * power(14710593, 13));
        assert(power(14710593, 14) == 22224014895926400452671548348010045036549779468224181289491560479917419264075741050576656961022834049);
    } else if n == 15 {
        assert(liu_layland_table(15) == 709411);
        assert(power(15709411, 0) == 1);
        assert(power(15709411, 1) == 15709411 * power(15709411, 0));
        assert(power(15709411, 1) == 15709411);
        assert(power(15709411, 2) == 15709411 * power(15709411, 1));
        assert(power(15709411, 2) == 246785593966921);
        assert(power(15709411, 3) == 15709411 * power(15709411, 2));
        assert(power(15709411, 3) == 3876856324505482393531);
        assert(power(15709411, 4) == 15709411 * power(15709411, 3));
        assert(power(15709411, 4) == 60903129389605994673242220241);
        assert(power(15709411, 5) == 15709411 * power(15709411, 4));
        assert(power(15709411, 5) == 956752290767499698385772740318388051);
        assert(power(15709411, 6) == 15709411 * power(15709411, 5));
        assert(power(15709411, 6) == 15030014960858158204318140530257828750647961);
        assert(power(15709411, 7) == 15709411 * power(15709411, 6));
        assert(power(15709411, 7) == 236112682356269719934655644345578167811545335660971);
        assert(power(15709411, 8) == 15709411 * power(15709411, 7));
        assert(power(15709411, 8) == 3709191169447089457308398660494513470778536223031150098081);
        assert(power(15709411, 9) == 15709411 * power(15709411, 8));
        assert(power(15709411, 9) == 58269208558414971038624588309557775357496515505984002693444740291);
        assert(power(15709411, 10) == 15709411 * power(15709411, 9));
        assert(power(15709411, 10) == 915374945888858288598850532460638321336584693151375657736430431019578601);
        assert(power(15709411, 11) == 15709411 * power(15709411, 10));
        assert(power(15709411, 11) == 14380001244070835176355957141993008712226478281023845422776915313793709289914011);
        assert(power(15709411, 12) == 15709411 * power(15709411, 11));
        assert(power(15709411, 12) == 225901349723620062898633213041953532986946472399177088546871323976579348449777353457521);
        assert(power(15709411, 13) == 15709411 * power(15709411, 12));
        assert(power(15709411, 13) == 3548777148263083975920480481926608292593999769918828945766194392462239358909765303956468430131);
        assert(power(15709411, 14) == 15709411 * power(15709411, 13));
        assert(power(15709411, 14) == 55749198769472722305248931208063161504367398519560320547737857617084620069490015073392088677452662841);
        assert(power(15709411, 15) == 15709411 * power(15709411, 14));
        assert(power(15709411, 15) == 875787076390341247982022917658190718031485758344564614776159125566262918450467207184111485182550313613696651);
        assert(power(15000000, 0) == 1);
        assert(power(15000000, 1) == 15000000 * power(15000000, 0));
        assert(power(15000000, 1) == 15000000);
        assert(power(15000000, 2) == 15000000 * power(15000000, 1));
        assert(power(15000000, 2) == 225000000000000);
        assert(power(15000000, 3) == 15000000 * power(15000000, 2));
        assert(power(15000000, 3) == 3375000000000000000000);
        assert(power(15000000, 4) == 15000000 * power(15000000, 3));
        assert(power(15000000, 4) == 50625000000000000000000000000);
        assert(power(15000000, 5) == 15000000 * power(15000000, 4));
        assert(power(15000000, 5) == 759375000000000000000000000000000000);
        assert(power(15000000, 6) == 15000000 * power(15000000, 5));
        assert(power(15000000, 6) == 11390625000000000000000000000000000000000000);
        assert(power(15000000, 7) == 15000000 * power(15000000, 6));
        assert(power(15000000, 7) == 170859375000000000000000000000000000000000000000000);
        assert(power(15000000, 8) == 15000000 * power(15000000, 7));
        assert(power(15000000, 8) == 2562890625000000000000000000000000000000000000000000000000);
        assert(power(15000000, 9) == 15000000 * power(15000000, 8));
        assert(power(15000000, 9) == 38443359375000000000000000000000000000000000000000000000000000000);
        assert(power(15000000, 10) == 15000000 * power(15000000, 9));
        assert(power(15000000, 10) == 576650390625000000000000000000000000000000000000000000000000000000000000);
        assert(power(15000000, 11) == 15000000 * power(15000000, 10));
        assert(power(15000000, 11) == 8649755859375000000000000000000000000000000000000000000000000000000000000000000);
        assert(power(15000000, 12) == 15000000 * power(15000000, 11));
        assert(power(15000000, 12) == 129746337890625000000000000000000000000000000000000000000000000000000000000000000000000);
        assert(power(15000000, 13) == 15000000 * power(15000000, 12));
        assert(power(15000000, 13) == 1946195068359375000000000000000000000000000000000000000000000000000000000000000000000000000000);
        assert(power(15000000, 14) == 15000000 * power(15000000, 13));
        assert(power(15000000, 14) == 29192926025390625000000000000000000000000000000000000000000000000000000000000000000000000000000000000);
        assert(power(15000000, 15) == 15000000 * power(15000000, 14));
        assert(power(15000000, 15) == 437893890380859375000000000000000000000000000000000000000000000000000000000000000000000000000000000000000000);
        assert(power(15709412, 0) == 1);
        assert(power(15709412, 1) == 15709412 * power(15709412, 0));
        assert(power(15709412, 1) == 15709412);
        assert(power(15709412, 2) == 15709412 * power(15709412, 1));
        assert(power(15709412, 2) == 246785625385744);
        assert(power(15709412, 3) == 15709412 * power(15709412, 2));
        assert(power(15709412, 3) == 3876857064862311422528);
        assert(power(15709412, 4) == 15709412 * power(15709412, 3));
        assert(power(15709412, 4) == 60903144897032773408798433536);
        assert(power(15709412, 5) == 15709412 * power(15709412, 4));
        assert(power(15709412, 5) == 956752595283185414981459017371640832);
        assert(power(15709412, 6) == 15709412 * power(15709412, 5));
        assert(power(15709412, 6) == 15030020701372816356334712065006262945910784);
        assert(power(15709412, 7) == 15709412 * power(15709412, 6));
        assert(power(15709412, 7) == 236112787566394537742000801730554167197646221099008);
        assert(power(15709412, 8) == 15709412 * power(15709412, 7));
        assert(power(15709412, 8) == 3709193058348969147938640298715588400824709917487409463296);
        assert(power(15709412, 9) == 15709412 * power(15709412, 8));
        assert(power(15709412, 9) == 58269241941143996120257051172326249010976507874295720071615741952);
        assert(power(15709412, 10) == 15709412 * power(15709412, 9));
        assert(power(15709412, 10) == 915375528581110786379519562771156044128022484518555676441681196009652224);
        assert(power(15709412, 11) == 15709412 * power(15709412, 10));
        assert(power(15709412, 11) == 14380011313198444760879861173631952013497285954565612766161063880768382763532288);
        assert(power(15709412, 12) == 15709412 * power(15709412, 11));
        assert(power(15709412, 12) == 225901522283695406507903221679387870544258425942084491976083810861309401406027287494656);
        assert(power(15709412, 13) == 15709412 * power(15709412, 12));
        assert(power(15709412, 13) == 3548780084981752023340132965488835966182419847595693423262994731350384246160661942495998902272);
        assert(power(15709412, 14) == 15709412 * power(15709412, 13));
        assert(power(15709412, 14) == 55749248452373355016483764889645905593177700542857957411728768588612502481247256647389955107338584064);
        assert(power(15709412, 15) == 15709412 * power(15709412, 14));
        assert(power(15709412, 15) == 875787912628695411776210253962582065076332887040379310459300858011172309828935428543587529442686040558010368);
    } else if n == 16 {
        assert(liu_layland_table(16) == 708380);
        assert(power(16708380, 0) == 1);
        assert(power(16708380, 1) == 16708380 * power(16708380, 0));
        assert(power(16708380, 1) == 16708380);
        assert(power(16708380, 2) == 16708380 * power(16708380, 1));
        assert(power(16708380, 2) == 279169962224400);
        assert(power(16708380, 3) == 16708380 * power(16708380, 2));
        assert(power(16708380, 3) == 4664477813430920472000);
        assert(power(16708380, 4) == 16708380 * power(16708380, 3));
        assert(power(16708380, 4) == 77935867808372922995955360000);
        assert(power(16708380, 5) == 16708380 * power(16708380, 4));
        assert(power(16708380, 5) == 1302182094972061979127160617916800000);
        assert(power(16708380, 6) == 16708380 * power(16708380, 5));
        assert(power(16708380, 6) == 21757353271989300930808667925188702784000000);
        assert(power(16708380, 7) == 16708380 * power(16708380, 6));
        assert(power(16708380, 7) == 363530126262640595886304930987864417822129920000000);
        assert(power(16708380, 8) == 16708380 * power(16708380, 7));
        assert(power(16708380, 8) == 6073999491044178879494819582819014081450919112729600000000);
        assert(power(16708380, 9) == 16708380 * power(16708380, 8));
        assert(power(16708380, 9) == 101486691616172737506573653621181558498232907884748994048000000000);
        assert(power(16708380, 10) == 16708380 * power(16708380, 9));
        assert(power(16708380, 10) == 1695678208465828243900085102691077528380704753443382397171722240000000000);
        assert(power(16708380, 11) == 16708380 * power(16708380, 10));
        assert(power(16708380, 11) == 28332035864766275313815303928101545953645599688338341577256060440371200000000000);
        assert(power(16708380, 12) == 16708380 * power(16708380, 11));
        assert(power(16708380, 12) == 473382421402143539127845347846213308380973064920638579642593615140689350656000000000000);
        assert(power(16708380, 13) == 16708380 * power(16708380, 12));
        assert(power(16708380, 13) == 7909453382107147066292908653046713517486482738458699231328718307344391132713697280000000000000);
        assert(power(16708380, 14) == 16708380 * power(16708380, 13));
        assert(power(16708380, 14) == 132154152700531413899507109080392647201300798457608561062748130392066877914010885359206400000000000000);
        assert(power(16708380, 15) == 16708380 * power(16708380, 14));
        assert(power(16708380, 15) == 2208081801898505065370246591216650898645270234933137729489599606880202381600901196718057029632000000000000000);
        assert(power(16708380, 16) == 16708380 * power(16708380, 15));
        assert(power(16708380, 16) == 36893469817204944064130920739752465541906660287952139776649436279605035868692865537220049712762716160000000000000000);
        assert(power(16000000, 0) == 1);
        assert(power(16000000, 1) == 16000000 * power(16000000, 0));
        assert(power(16000000, 1) == 16000000);
        assert(power(16000000, 2) == 16000000 * power(16000000, 1));
        assert(power(16000000, 2) == 256000000000000);
        assert(power(16000000, 3) == 16000000 * power(16000000, 2));
        assert(power(16000000, 3) == 4096000000000000000000);
        assert(power(16000000, 4) == 16000000 * power(16000000, 3));
        assert(power(16000000, 4) == 65536000000000000000000000000);
        assert(power(16000000, 5) == 16000000 * power(16000000, 4));
        assert(power(16000000, 5) == 1048576000000000000000000000000000000);
        assert(power(16000000, 6) == 16000000 * power(16000000, 5));
        assert(power(16000000, 6) == 16777216000000000000000000000000000000000000);
        assert(power(16000000, 7) == 16000000 * power(16000000, 6));
        assert(power(16000000, 7) == 268435456000000000000000000000000000000000000000000);
        assert(power(16000000, 8) == 16000000 * power(16000000, 7));
        assert(power(16000000, 8) == 4294967296000000000000000000000000000000000000000000000000);
        assert(power(16000000, 9) == 16000000 * power(16000000, 8));
        assert(power(16000000, 9) == 68719476736000000000000000000000000000000000000000000000000000000);
        assert(power(16000000, 10) == 16000000 * power(16000000, 9));
        assert(power(16000000, 10) == 1099511627776000000000000000000000000000000000000000000000000000000000000);
        assert(power(16000000, 11) == 16000000 * power(16000000, 10));
        assert(power(16000000, 11) == 17592186044416000000000000000000000000000000000000000000000000000000000000000000);
        assert(power(16000000, 12) == 16000000 * power(16000000, 11));
        assert(power(16000000, 12) == 281474976710656000000000000000000000000000000000000000000000000000000000000000000000000);
        assert(power(16000000, 13) == 16000000 * power(16000000, 12));
        assert(power(16000000, 13) == 4503599627370496000000000000000000000000000000000000000000000000000000000000000000000000000000);
        assert(power(16000000, 14) == 16000000 * power(16000000, 13));
        assert(power(16000000, 14) == 72057594037927936000000000000000000000000000000000000000000000000000000000000000000000000000000000000);
        assert(power(16000000, 15) == 16000000 * power(16000000, 14));
        assert(power(16000000, 15) == 1152921504606846976000000000000000000000000000000000000000000000000000000000000000000000000000000000000000000);
        assert(power(16000000, 16) == 16000000 * power(16000000, 15));
        assert(power(16000000, 16) == 18446744073709551616000000000000000000000000000000000000000000000000000000000000000000000000000000000000000000000000);
        assert(power(16708381, 0) == 1);
        assert(power(16708381, 1) == 16708381 * power(16708381, 0));
        assert(power(16708381, 1) == 16708381);
        assert(power(16708381, 2) == 16708381 * power(16708381, 1));
        assert(power(16708381, 2) == 279169995641161);
        assert(power(16708381, 3) == 16708381 * power(16708381, 2));
        assert(power(16708381, 3) == 4664478650940857270341);
        assert(power(16708381, 4) == 16708381 * power(16708381, 3));
        assert(power(16708381, 4) == 77935886466285851739477427921);
        assert(power(16708381, 5) == 16708381 * power(16708381, 4));
        assert(power(16708381, 5) == 1302182484651447665772701606604105901);
        assert(power(16708381, 6) == 16708381 * power(16708381, 5));
        assert(power(16708381, 6) == 21757361085083039801290957842453517558256281);
        assert(power(16708381, 7) == 16708381 * power(16708381, 6));
        assert(power(16708381, 7) == 363530278564140845638133615486651346153535638591061);
        assert(power(16708381, 8) == 16708381 * power(16708381, 7));
        assert(power(16708381, 8) == 6074002399285798186584124576458471105696157946657750382241);
        assert(power(16708381, 9) == 16708381 * power(16708381, 8));
        assert(power(16708381, 9) == 101486746282181243990556641974931765911462677208935369989378261821);
        assert(power(16708381, 10) == 16708381 * power(16708381, 9));
        assert(power(16708381, 10) == 1695679223333017735648180776197752393851530678086908766158497951623021801);
        assert(power(16708381, 11) == 16708381 * power(16708381, 10));
        assert(power(16708381, 11) == 28332054517232150206967086365587778340133432002664422777216090163437016622414181);
        assert(power(16708381, 12) == 16708381 * power(16708381, 11));
        assert(power(16708381, 12) == 473382761386685831107234933456145889450496972738110190906804553781057943230629275950961);
        assert(power(16708381, 13) == 16708381 * power(16708381, 12));
        assert(power(16708381, 13) == 7909459536080835193441333124694932312522784059854958289653625977108906698573724812342793704141);
        assert(power(16708381, 14) == 16708381 * power(16708381, 13));
        assert(power(16708381, 14) == 132154263432921841210226494995323437846841747252783447842641140857032891613221950753776899813189105721);
        assert(power(16708381, 15) == 16708381 * power(16708381, 14));
        assert(power(16708381, 15) == 2208083784211626066161965374676457217774851559805209157048476227713972082605416990757341631077592403435747701);
        assert(power(16708381, 16) == 16708381 * power(16708381, 15));
        assert(power(16708381, 16) == 36893505146529632942965325188901998924782192079669720380654776282087804579534779745447142519205854439310181608182081);
    }
}

} // verus!
