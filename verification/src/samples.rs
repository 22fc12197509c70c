//! Conversions of single colours, worked out step by step.

use crate::color::Color;
use crate::convert::hsl_of_rgb;
use crate::rounding::round_ratio;
use crate::rounding_facts::{lemma_round_ratio_from, power_of_two};
use vstd::prelude::*;
use vstd::std_specs::cmp::PartialEqSpec;

verus! {

/// White has hue 0, saturation 0 and lightness 100.
pub proof fn lemma_white()
    ensures
        hsl_of_rgb(255, 255, 255) == Color::HSL(0, 0, 100),
{
    reveal_with_fuel(power_of_two, 32);
    lemma_round_ratio_from(255, 255, 131072, 8388608);
    assert(round_ratio(255, 255) == 1099511627776);
    lemma_round_ratio_from(0, 1099511627776, 1, 0);
    assert(round_ratio(0, 1099511627776) == 0);
    lemma_round_ratio_from(2199023255552, 1099511627776, 262144, 8388608);
    assert(round_ratio(2199023255552, 1099511627776) == 2199023255552);
    lemma_round_ratio_from(2199023255552, 2199023255552, 131072, 8388608);
    assert(round_ratio(2199023255552, 2199023255552) == 1099511627776);
    lemma_round_ratio_from(109951162777600, 1099511627776, 8388608, 13107200);
    assert(round_ratio(109951162777600, 1099511627776) == 109951162777600);
}

/// The grey of 128 has hue 0, saturation 0 and lightness 50.
pub proof fn lemma_middle_grey()
    ensures
        hsl_of_rgb(128, 128, 128) == Color::HSL(0, 0, 50),
{
    reveal_with_fuel(power_of_two, 32);
    lemma_round_ratio_from(128, 255, 65536, 8421504);
    assert(round_ratio(128, 255) == 551911751680);
    lemma_round_ratio_from(0, 1099511627776, 1, 0);
    assert(round_ratio(0, 1099511627776) == 0);
    lemma_round_ratio_from(1103823503360, 1099511627776, 131072, 8421505);
    assert(round_ratio(1103823503360, 1099511627776) == 1103823503360);
    lemma_round_ratio_from(1103823503360, 2199023255552, 65536, 8421505);
    assert(round_ratio(1103823503360, 2199023255552) == 551911751680);
    lemma_round_ratio_from(4311875584, 1099511627776, 512, 8421632);
    assert(round_ratio(4311875584, 1099511627776) == 4311875584);
    lemma_round_ratio_from(1095199752192, 1099511627776, 65536, 16711422);
    assert(round_ratio(1095199752192, 1099511627776) == 1095199752192);
    lemma_round_ratio_from(0, 1095199752192, 1, 0);
    assert(round_ratio(0, 1095199752192) == 0);
    lemma_round_ratio_from(55191175168000, 1099511627776, 4194304, 13158601);
    assert(round_ratio(55191175168000, 1099511627776) == 55191177003008);
}

/// The colour (150, 50, 60) has hue 354, saturation 50 and lightness 39.
pub proof fn lemma_crimson()
    ensures
        hsl_of_rgb(150, 50, 60) == Color::HSL(354, 50, 39),
{
    reveal_with_fuel(power_of_two, 32);
    lemma_round_ratio_from(150, 255, 65536, 9868950);
    assert(round_ratio(150, 255) == 646771572736);
    lemma_round_ratio_from(50, 255, 16384, 13158600);
    assert(round_ratio(50, 255) == 215590518784);
    lemma_round_ratio_from(60, 255, 16384, 15790320);
    assert(round_ratio(60, 255) == 258708619264);
    lemma_round_ratio_from(431181053952, 1099511627776, 32768, 13158601);
    assert(round_ratio(431181053952, 1099511627776) == 431181070336);
    lemma_round_ratio_from(43118100480, 1099511627776, 4096, 10526880);
    assert(round_ratio(43118100480, 1099511627776) == 43118100480);
    lemma_round_ratio_from(43118100480, 431181070336, 8192, 13421770);
    assert(round_ratio(43118100480, 431181070336) == 109951148032);
    lemma_round_ratio_from(6487118618624, 1099511627776, 524288, 12373196);
    assert(round_ratio(6487118618624, 1099511627776) == 6487118708736);
    lemma_round_ratio_from(389227122524160, 1099511627776, 33554432, 11599872);
    assert(round_ratio(389227122524160, 1099511627776) == 389227116232704);
    lemma_round_ratio_from(862362091520, 1099511627776, 65536, 13158601);
    assert(round_ratio(862362091520, 1099511627776) == 862362075136);
    lemma_round_ratio_from(862362075136, 2199023255552, 32768, 13158601);
    assert(round_ratio(862362075136, 2199023255552) == 431181037568);
    lemma_round_ratio_from(862362075136, 1099511627776, 65536, 13158601);
    assert(round_ratio(862362075136, 1099511627776) == 862362075136);
    lemma_round_ratio_from(237149552640, 1099511627776, 16384, 14474460);
    assert(round_ratio(237149552640, 1099511627776) == 237149552640);
    lemma_round_ratio_from(431181070336, 862362075136, 65536, 8388608);
    assert(round_ratio(431181070336, 862362075136) == 549755879424);
    lemma_round_ratio_from(54975587942400, 1099511627776, 4194304, 13107201);
    assert(round_ratio(54975587942400, 1099511627776) == 54975589777408);
    lemma_round_ratio_from(43118103756800, 1099511627776, 4194304, 10280157);
    assert(round_ratio(43118103756800, 1099511627776) == 43118103625728);
}

/// The colour (0, 0, 65) has hue 240, saturation 99 and lightness 12: the
/// roundings on the way keep its saturation just under 100.
pub proof fn lemma_dark_blue()
    ensures
        hsl_of_rgb(0, 0, 65) == Color::HSL(240, 99, 12),
{
    reveal_with_fuel(power_of_two, 32);
    lemma_round_ratio_from(0, 255, 1, 0);
    assert(round_ratio(0, 255) == 0);
    lemma_round_ratio_from(65, 255, 32768, 8553090);
    assert(round_ratio(65, 255) == 280267685888);
    lemma_round_ratio_from(280267685888, 1099511627776, 32768, 8553091);
    assert(round_ratio(280267685888, 1099511627776) == 280267685888);
    lemma_round_ratio_from(0, 1099511627776, 1, 0);
    assert(round_ratio(0, 1099511627776) == 0);
    lemma_round_ratio_from(0, 280267685888, 1, 0);
    assert(round_ratio(0, 280267685888) == 0);
    lemma_round_ratio_from(4398046511104, 1099511627776, 524288, 8388608);
    assert(round_ratio(4398046511104, 1099511627776) == 4398046511104);
    lemma_round_ratio_from(263882790666240, 1099511627776, 16777216, 15728640);
    assert(round_ratio(263882790666240, 1099511627776) == 263882790666240);
    lemma_round_ratio_from(280267685888, 2199023255552, 16384, 8553091);
    assert(round_ratio(280267685888, 2199023255552) == 140133842944);
    lemma_round_ratio_from(819243941888, 1099511627776, 65536, 12500670);
    assert(round_ratio(819243941888, 1099511627776) == 819243909120);
    lemma_round_ratio_from(280267718656, 1099511627776, 32768, 8553092);
    assert(round_ratio(280267718656, 1099511627776) == 280267718656);
    lemma_round_ratio_from(280267685888, 280267718656, 65536, 16777214);
    assert(round_ratio(280267685888, 280267718656) == 1099511496704);
    lemma_round_ratio_from(109951149670400, 1099511627776, 8388608, 13107198);
    assert(round_ratio(109951149670400, 1099511627776) == 109951146000384);
    lemma_round_ratio_from(14013384294400, 1099511627776, 1048576, 13364204);
    assert(round_ratio(14013384294400, 1099511627776) == 14013384622080);
}

/// The colour (255, 0, 1) has hue 360: with red the largest channel and
/// blue above green, the hue is moved up by a whole turn.
pub proof fn lemma_red_next_to_magenta()
    ensures
        hsl_of_rgb(255, 0, 1) == Color::HSL(360, 100, 50),
{
    reveal_with_fuel(power_of_two, 32);
    lemma_round_ratio_from(255, 255, 131072, 8388608);
    assert(round_ratio(255, 255) == 1099511627776);
    lemma_round_ratio_from(0, 255, 1, 0);
    assert(round_ratio(0, 255) == 0);
    lemma_round_ratio_from(1, 255, 512, 8421504);
    assert(round_ratio(1, 255) == 4311810560);
    lemma_round_ratio_from(1099511627776, 1099511627776, 131072, 8388608);
    assert(round_ratio(1099511627776, 1099511627776) == 1099511627776);
    lemma_round_ratio_from(4311810560, 1099511627776, 512, 8421505);
    assert(round_ratio(4311810560, 1099511627776) == 4311810560);
    lemma_round_ratio_from(6592757956096, 1099511627776, 524288, 12574687);
    assert(round_ratio(6592757956096, 1099511627776) == 6592758022144);
    lemma_round_ratio_from(395565481328640, 1099511627776, 33554432, 11788770);
    assert(round_ratio(395565481328640, 1099511627776) == 395565481328640);
    lemma_round_ratio_from(1099511627776, 2199023255552, 65536, 8388608);
    assert(round_ratio(1099511627776, 2199023255552) == 549755813888);
    lemma_round_ratio_from(0, 1099511627776, 1, 0);
    assert(round_ratio(0, 1099511627776) == 0);
    lemma_round_ratio_from(109951162777600, 1099511627776, 8388608, 13107200);
    assert(round_ratio(109951162777600, 1099511627776) == 109951162777600);
    lemma_round_ratio_from(54975581388800, 1099511627776, 4194304, 13107200);
    assert(round_ratio(54975581388800, 1099511627776) == 54975581388800);
}

/// The RGB colour (150, 50, 60) and the HSL colour (354, 50, 39) are equal,
/// whichever side each stands on, and each equals itself.
pub proof fn lemma_crimson_equals_its_hsl()
    ensures
        Color::RGB(150, 50, 60).eq_spec(&Color::HSL(354, 50, 39)),
        Color::HSL(354, 50, 39).eq_spec(&Color::RGB(150, 50, 60)),
        Color::RGB(150, 50, 60).eq_spec(&Color::RGB(150, 50, 60)),
        Color::HSL(354, 50, 39).eq_spec(&Color::HSL(354, 50, 39)),
        !Color::RGB(150, 50, 60).eq_spec(&Color::HSL(354, 50, 40)),
{
    lemma_crimson();
}

} // verus!
