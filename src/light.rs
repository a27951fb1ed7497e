//! Light definitions, emitter cells and the integer colour conversions
//! between 8-bit channels and the simulation's energy scale.
use crate::coords::ChunkCoords;
use crate::grid::{DataChunk, FlatGrid};
use crate::model::box_point;
use crate::producer::{chunk_tile, lemma_cell_row_col, lemma_side_bound, MapDataProducer};
use vstd::prelude::*;

verus! {

/// `LIGHT_SCALE[c]` is the energy of an 8-bit channel value `c`: `ln(1 + c) / ln(256)`
/// of `i32::MAX`, rounded to the nearest integer.
pub const LIGHT_SCALE: [i32; 256] = [
    0, 268435456, 425460131, 536870912, 623287827, 693895587,
    753593598, 805306368, 850920263, 891723283, 928634104, 962331043,
    993329223, 1022029054, 1048747958, 1073741824, 1097219951, 1119355719,
    1140294359, 1160158738, 1179053730, 1197069559, 1214284416, 1230766499,
    1246575653, 1261764679, 1276380394, 1290464510, 1304054343, 1317183414,
    1329881945, 1342177279, 1354094235, 1365655407, 1376881425, 1387791175,
    1398401989, 1408729814, 1418789354, 1428594194, 1438156915, 1447489186,
    1456601853, 1465505015, 1474208090, 1482719872, 1491048591, 1499201955,
    1507187197, 1515011109, 1522680083, 1530200134, 1537576938, 1544815850,
    1551921930, 1558899966, 1565754490, 1572489799, 1579109969, 1585618870,
    1592020181, 1598317401, 1604513861, 1610612735, 1616617049, 1622529691,
    1628353417, 1634090863, 1639744547, 1645316881, 1650810172, 1656226630,
    1661568377, 1666837445, 1672035785, 1677165270, 1682227702, 1687224810,
    1692158259, 1697029650, 1701840526, 1706592371, 1711286616, 1715924641,
    1720507778, 1725037309, 1729514474, 1733940471, 1738316456, 1742643545,
    1746922821, 1751155328, 1755342076, 1759484046, 1763582185, 1767637411,
    1771650613, 1775622652, 1779554366, 1783446565, 1787300035, 1791115538,
    1794893817, 1798635590, 1802341556, 1806012394, 1809648764, 1813251306,
    1816820645, 1820357386, 1823862120, 1827335422, 1830777849, 1834189946,
    1837572243, 1840925255, 1844249486, 1847545425, 1850813549, 1854054326,
    1857268207, 1860455637, 1863617046, 1866752857, 1869863480, 1872949317,
    1876010760, 1879048191, 1882061985, 1885052505, 1888020110, 1890965147,
    1893887957, 1896788873, 1899668221, 1902526319, 1905363478, 1908180003,
    1910976192, 1913752337, 1916508722, 1919245627, 1921963326, 1924662086,
    1927342170, 1930003833, 1932647328, 1935272901, 1937880793, 1940471241,
    1943044476, 1945600726, 1948140214, 1950663158, 1953169772, 1955660266,
    1958134846, 1960593715, 1963037070, 1965465106, 1967878014, 1970275982,
    1972659192, 1975027826, 1977382062, 1979722072, 1982048028, 1984360097,
    1986658445, 1988943234, 1991214621, 1993472765, 1995717818, 1997949930,
    2000169252, 2002375927, 2004570100, 2006751912, 2008921500, 2011079001,
    2013224550, 2015358277, 2017480312, 2019590783, 2021689816, 2023777532,
    2025854055, 2027919502, 2029973993, 2032017641, 2034050562, 2036072867,
    2038084666, 2040086068, 2042077181, 2044058108, 2046028955, 2047989822,
    2049940811, 2051882021, 2053813549, 2055735491, 2057647941, 2059550994,
    2061444741, 2063329273, 2065204679, 2067071046, 2068928462, 2070777012,
    2072616781, 2074447850, 2076270303, 2078084220, 2079889680, 2081686762,
    2083475543, 2085256101, 2087028509, 2088792842, 2090549174, 2092297576,
    2094038121, 2095770878, 2097495916, 2099213305, 2100923111, 2102625402,
    2104320243, 2106007698, 2107687833, 2109360711, 2111026393, 2112684941,
    2114336417, 2115980880, 2117618390, 2119249005, 2120872783, 2122489782,
    2124100056, 2125703663, 2127300657, 2128891093, 2130475023, 2132052502,
    2133623581, 2135188313, 2136746747, 2138298936, 2139844928, 2141384773,
    2142918519, 2144446216, 2145967909, 2147483647,
];

/// `LEVEL_THRESHOLDS[k - 1]` is the smallest energy that displays as level `k`
/// or more: the display level of energy `c > 0` is `log10(1 + 9 c / i32::MAX)`
/// of 255, rounded to the nearest integer.
pub const LEVEL_THRESHOLDS: [i32; 255] = [
    1079727, 3253859, 5447711, 7661464, 9895296, 12149391,
    14423932, 16719105, 19035096, 21372094, 23730291, 26109878,
    28511049, 30934001, 33378930, 35846037, 38335521, 40847587,
    43382439, 45940283, 48521329, 51125787, 53753868, 56405788,
    59081763, 61782010, 64506751, 67256206, 70030601, 72830161,
    75655115, 78505694, 81382128, 84284654, 87213508, 90168928,
    93151156, 96160434, 99197009, 102261127, 105353039, 108472996,
    111621254, 114798068, 118003697, 121238404, 124502452, 127796107,
    131119637, 134473314, 137857410, 141272203, 144717970, 148194992,
    151703553, 155243939, 158816439, 162421343, 166058946, 169729545,
    173433438, 177170928, 180942319, 184747920, 188588039, 192462991,
    196373091, 200318658, 204300014, 208317483, 212371394, 216462076,
    220589863, 224755091, 228958101, 233199235, 237478839, 241797261,
    246154855, 250551974, 254988978, 259466229, 263984091, 268542933,
    273143126, 277785047, 282469072, 287195584, 291964969, 296777616,
    301633916, 306534266, 311479065, 316468716, 321503627, 326584208,
    331710873, 336884040, 342104131, 347371571, 352686791, 358050223,
    363462304, 368923477, 374434186, 379994881, 385606014, 391268044,
    396981433, 402746645, 408564152, 414434427, 420357949, 426335202,
    432366672, 438452851, 444594235, 450791326, 457044629, 463354653,
    469721913, 476146928, 482630222, 489172323, 495773766, 502435088,
    509156832, 515939547, 522783785, 529690105, 536659070, 543691247,
    550787211, 557947540, 565172817, 572463633, 579820581, 587244261,
    594735278, 602294244, 609921774, 617618491, 625385022, 633222001,
    641130066, 649109862, 657162040, 665287256, 673486173, 681759459,
    690107790, 698531845, 707032312, 715609883, 724265259, 732999144,
    741812251, 750705298, 759679011, 768734122, 777871368, 787091495,
    796395254, 805783404, 815256711, 824815946, 834461890, 844195329,
    854017056, 863927873, 873928586, 884020013, 894202976, 904478304,
    914846836, 925309418, 935866901, 946520148, 957270027, 968117413,
    979063193, 990108258, 1001253508, 1012499853, 1023848209, 1035299502,
    1046854666, 1058514643, 1070280383, 1082152845, 1094132999, 1106221820,
    1118420294, 1130729416, 1143150190, 1155683628, 1168330752, 1181092594,
    1193970194, 1206964602, 1220076878, 1233308090, 1246659318, 1260131649,
    1273726184, 1287444029, 1301286304, 1315254138, 1329348668, 1343571045,
    1357922428, 1372403987, 1387016903, 1401762368, 1416641583, 1431655762,
    1446806129, 1462093920, 1477520381, 1493086770, 1508794355, 1524644419,
    1540638253, 1556777160, 1573062459, 1589495475, 1606077549, 1622810033,
    1639694291, 1656731700, 1673923650, 1691271541, 1708776789, 1726440820,
    1744265076, 1762251008, 1780400085, 1798713785, 1817193603, 1835841044,
    1854657629, 1873644892, 1892804383, 1912137661, 1931646306, 1951331905,
    1971196066, 1991240408, 2011466564, 2031876184, 2052470933, 2073252489,
    2094222547, 2115382817, 2136735024,
];

/// `INVERSE_THRESHOLDS[j - 1]` is `log256(j + 0.5)` scaled by `2^40` and
/// rounded up: a channel at energy `c` of a light whose strongest channel is
/// `m` shows as level `j` or more once `c / m` reaches it, which is when
/// `256^(c / m) - 1`, rounded to the nearest integer, reaches `j`.
pub const INVERSE_THRESHOLDS: [u64; 255] = [
    80396633920, 181684413927, 248400969041, 298232221311, 338021707802,
    371145608776, 399520001319, 424337661786, 446391758401, 466236556432,
    484274667735, 500807781326, 516067808703, 530236870486, 543460602723,
    555857295193, 567524336439, 578542865262, 588981196168, 598897387215,
    608341195677, 617355588710, 625977925270, 634240891553, 642173249177,
    649800439375, 657145075201, 664227345793, 671065350882, 677675379520,
    684072143824, 690268976175, 696277996533, 702110255126, 707775854751,
    713284056076, 718643368717, 723861630314, 728946075475, 733903396094,
    738739794316, 743461029184, 748072457877, 752579072244, 756985531288,
    761296190114, 765515125800, 769646160565, 773692882585, 777658664713,
    781546681375, 785359923831, 789101214006, 792773217031, 796378452653,
    799919305615, 803398035133, 806816783559, 810177584298, 813482369075,
    816732974607, 819931148724, 823078556024, 826176783068, 829227343186,
    832231680913, 835191176101, 838107147721, 840980857392, 843813512662,
    846606270049, 849360237884, 852076478944, 854756012919, 857399818708,
    860008836569, 862583970121, 865126088231, 867636026766, 870114590247,
    872562553396, 874980662592, 877369637233, 879730171024, 882062933184,
    884368569588, 886647703838, 888900938274, 891128854933, 893332016450,
    895510966912, 897666232660, 899798323059, 901907731215, 903994934662,
    906060396012, 908104563566, 910127871904, 912130742435, 914113583924,
    916076792998, 918020754614, 919945842518, 921852419675, 923740838678,
    925611442142, 927464563075, 929300525235, 931119643468, 932922224033,
    934708564913, 936478956109, 938233679920, 939973011218, 941697217706,
    943406560159, 945101292669, 946781662866, 948447912139, 950100275840,
    951738983486, 953364258951, 954976320649, 956575381707, 958161650140,
    959735329008, 961296616576, 962845706459, 964382787774, 965908045269,
    967421659463, 968923806773, 970414659636, 971894386627, 973363152577,
    974821118680, 976268442599, 977705278572, 979131777506, 980548087075,
    981954351810, 983350713191, 984737309727, 986114277043, 987481747957,
    988839852558, 990188718281, 991528469976, 992859229982, 994181118189,
    995494252105, 996798746919, 998094715563, 999382268766, 1000661515117,
    1001932561114, 1003195511222, 1004450467921, 1005697531759, 1006936801397,
    1008168373658, 1009392343573, 1010608804423, 1011817847782, 1013019563561,
    1014214040045, 1015401363931, 1016581620372, 1017754893006, 1018921263996,
    1020080814065, 1021233622525, 1022379767315, 1023519325030, 1024652370950,
    1025778979076, 1026899222149, 1028013171689, 1029120898015, 1030222470274,
    1031317956467, 1032407423475, 1033490937081, 1034568561998, 1035640361887,
    1036706399382, 1037766736116, 1038821432733, 1039870548919, 1040914143416,
    1041952274042, 1042984997713, 1044012370460, 1045034447448, 1046051282992,
    1047062930577, 1048069442873, 1049070871753, 1050067268305, 1051058682853,
    1052045164970, 1053026763493, 1054003526535, 1054975501504, 1055942735113,
    1056905273394, 1057863161714, 1058816444784, 1059765166673, 1060709370822,
    1061649100053, 1062584396583, 1063515302033, 1064441857441, 1065364103274,
    1066282079435, 1067195825276, 1068105379607, 1069010780708, 1069912066336,
    1070809273733, 1071702439643, 1072591600310, 1073476791497, 1074358048488,
    1075235406100, 1076108898687, 1076978560154, 1077844423960, 1078706523129,
    1079564890256, 1080419557513, 1081270556659, 1082117919045, 1082961675623,
    1083801856950, 1084638493198, 1085471614157, 1086301249245, 1087127427509,
    1087950177638, 1088769527964, 1089585506467, 1090398140788, 1091207458224,
    1092013485743, 1092816249983, 1093615777263, 1094412093580, 1095205224624,
    1095995195775, 1096782032112, 1097565758415, 1098346399174, 1099123978588,
];

/// The number of entries `q` of `s` with `q * m <= c * 2^40`.
pub open spec fn count_reached(s: Seq<u64>, c: int, m: int) -> nat
    decreases s.len(),
{
    if s.len() == 0 {
        0
    } else {
        count_reached(s.drop_last(), c, m) + if s.last() * m <= c * 0x100_0000_0000 {
            1nat
        } else {
            0nat
        }
    }
}

pub proof fn lemma_count_reached_bound(s: Seq<u64>, c: int, m: int)
    ensures
        count_reached(s, c, m) <= s.len(),
    decreases s.len(),
{
    if s.len() > 0 {
        lemma_count_reached_bound(s.drop_last(), c, m);
    }
}

/// The strongest channel of a colour, at least 1.
pub open spec fn strongest(color: [i32; 3]) -> int {
    let a = if color@[0] >= color@[1] { color@[0] as int } else { color@[1] as int };
    let b = if a >= color@[2] { a } else { color@[2] as int };
    if b >= 1 { b } else { 1 }
}

/// The 8-bit level of channel energy `c` relative to the strongest channel `m`:
/// `256^(c / m) - 1` rounded to the nearest integer, and 0 for `c <= 0`.
pub open spec fn relative_level(c: i32, m: int) -> int {
    if c <= 0 {
        0
    } else {
        count_reached(INVERSE_THRESHOLDS@, c as int, m) as int
    }
}

/// The alpha of a light whose strongest channel is `m`: `255 m / i32::MAX`,
/// rounded to the nearest integer.
pub open spec fn alpha_level(m: int) -> int {
    (255 * m + 0x3fff_ffff) / 0x7fff_ffff
}

/// The number of entries of `s` that are at most `c`.
pub open spec fn count_at_most(s: Seq<i32>, c: int) -> nat
    decreases s.len(),
{
    if s.len() == 0 {
        0
    } else {
        count_at_most(s.drop_last(), c) + if s.last() <= c {
            1nat
        } else {
            0nat
        }
    }
}

pub proof fn lemma_count_at_most_bound(s: Seq<i32>, c: int)
    ensures
        count_at_most(s, c) <= s.len(),
    decreases s.len(),
{
    if s.len() > 0 {
        lemma_count_at_most_bound(s.drop_last(), c);
    }
}

/// The display level, 0 to 255, of an energy channel: 0 for energy at most
/// zero, else the number of level thresholds the energy reaches.
pub open spec fn display_level(c: i32) -> int {
    if c <= 0 {
        0
    } else {
        count_at_most(LEVEL_THRESHOLDS@, c as int) as int
    }
}

/// The energy of channel value `c` at alpha `a` (both 8-bit): the scale value
/// times `a / 255`, rounded to the nearest integer.
pub open spec fn scaled_channel(c: u8, a: u8) -> int {
    (LIGHT_SCALE@[c as int] * a + 127) / 255
}

/// Converts an energy colour to an opaque 8-bit RGBA colour on a logarithmic
/// scale; channels at or below zero become 0.
pub fn convert_color(comp_color: [i32; 3]) -> (r: [u8; 4])
    ensures
        r@[0] == display_level(comp_color@[0]),
        r@[1] == display_level(comp_color@[1]),
        r@[2] == display_level(comp_color@[2]),
        r@[3] == 255,
{
    let mut rgba_color: [u8; 4] = [0, 0, 0, 255];
    let mut i: usize = 0;
    while i < 3
        invariant
            0 <= i <= 3,
            rgba_color@.len() == 4,
            rgba_color@[3] == 255,
            forall|j: int| 0 <= j < i ==> rgba_color@[j] == display_level(#[trigger] comp_color@[j]),
        decreases 3 - i,
    {
        let level = channel_level(comp_color[i]);
        rgba_color.set(i, level);
        i = i + 1;
    }
    rgba_color
}

/// The display level of one energy channel.
fn channel_level(c: i32) -> (r: u8)
    ensures
        r == display_level(c),
{
    if c <= 0 {
        return 0;
    }
    let mut count: u8 = 0;
    let mut k: usize = 0;
    while k < 255
        invariant
            0 <= k <= 255,
            count == count_at_most(LEVEL_THRESHOLDS@.subrange(0, k as int), c as int),
        decreases 255 - k,
    {
        proof {
            assert(LEVEL_THRESHOLDS@.subrange(0, k + 1).drop_last() =~= LEVEL_THRESHOLDS@.subrange(0, k as int));
            lemma_count_at_most_bound(LEVEL_THRESHOLDS@.subrange(0, k as int), c as int);
        }
        if LEVEL_THRESHOLDS[k] <= c {
            count = count + 1;
        }
        k = k + 1;
    }
    assert(LEVEL_THRESHOLDS@.subrange(0, 255) =~= LEVEL_THRESHOLDS@);
    count
}

/// The colour of a light, as energy per channel.
#[derive(Clone, Copy, Debug, Default, PartialEq, Eq)]
pub struct LightDefinition {
    pub color: [i32; 3],
}

/// The level of channel energy `c` relative to the strongest channel `m`.
fn relative_channel(c: i32, m: i32) -> (r: u8)
    requires
        1 <= m,
    ensures
        r == relative_level(c, m as int),
{
    if c <= 0 {
        return 0;
    }
    let mut count: u8 = 0;
    let mut k: usize = 0;
    while k < 255
        invariant
            0 <= k <= 255,
            1 <= m,
            0 < c,
            count == count_reached(INVERSE_THRESHOLDS@.subrange(0, k as int), c as int, m as int),
        decreases 255 - k,
    {
        proof {
            assert(INVERSE_THRESHOLDS@.subrange(0, k + 1).drop_last() =~= INVERSE_THRESHOLDS@.subrange(0, k as int));
            lemma_count_reached_bound(INVERSE_THRESHOLDS@.subrange(0, k as int), c as int, m as int);
        }
        let q = INVERSE_THRESHOLDS[k];
        assert(q * m <= 0xffff_ffff_ffff_ffff * 0x7fff_ffff) by (nonlinear_arith)
            requires
                0 <= q <= 0xffff_ffff_ffff_ffff,
                1 <= m <= 0x7fff_ffff,
        ;
        if q as u128 * m as u128 <= c as u128 * 0x100_0000_0000 {
            count = count + 1;
        }
        k = k + 1;
    }
    assert(INVERSE_THRESHOLDS@.subrange(0, 255) =~= INVERSE_THRESHOLDS@);
    count
}

/// The energy of channel value `c` at alpha `a`.
fn scaled(c: u8, a: u8) -> (r: i32)
    ensures
        r == scaled_channel(c, a),
        0 <= r,
{
    let s = LIGHT_SCALE[c as usize];
    assert(0 <= LIGHT_SCALE@[c as int] <= i32::MAX);
    assert(0 <= s as i64 * a as i64 <= 0x7fff_ffff * 255) by (nonlinear_arith)
        requires
            0 <= s <= 0x7fff_ffff,
            0 <= a <= 255,
    ;
    let v: i64 = (s as i64 * a as i64 + 127) / 255;
    assert(v <= s) by (nonlinear_arith)
        requires
            v == (s * a + 127) / 255,
            0 <= s,
            0 <= a <= 255,
    ;
    v as i32
}

impl From<[u8; 4]> for LightDefinition {
    /// The light of an 8-bit RGBA colour: each channel's scale value times the alpha fraction.
    fn from(rgba: [u8; 4]) -> (r: LightDefinition) {
        LightDefinition { color: [scaled(rgba[0], rgba[3]), scaled(rgba[1], rgba[3]), scaled(rgba[2], rgba[3])] }
    }
}

impl vstd::std_specs::convert::FromSpecImpl<[u8; 4]> for LightDefinition {
    open spec fn obeys_from_spec() -> bool {
        true
    }

    open spec fn from_spec(v: [u8; 4]) -> LightDefinition {
        LightDefinition {
            color: [
                scaled_channel(v@[0], v@[3]) as i32,
                scaled_channel(v@[1], v@[3]) as i32,
                scaled_channel(v@[2], v@[3]) as i32,
            ],
        }
    }
}

impl From<[u8; 3]> for LightDefinition {
    /// The light of an opaque 8-bit RGB colour.
    fn from(rgb: [u8; 3]) -> (r: LightDefinition) {
        LightDefinition { color: [scaled(rgb[0], 255), scaled(rgb[1], 255), scaled(rgb[2], 255)] }
    }
}

impl vstd::std_specs::convert::FromSpecImpl<[u8; 3]> for LightDefinition {
    open spec fn obeys_from_spec() -> bool {
        true
    }

    open spec fn from_spec(v: [u8; 3]) -> LightDefinition {
        LightDefinition {
            color: [
                scaled_channel(v@[0], 255) as i32,
                scaled_channel(v@[1], 255) as i32,
                scaled_channel(v@[2], 255) as i32,
            ],
        }
    }
}

impl LightDefinition {
    /// The 8-bit RGBA colour of the light: alpha from its strongest channel,
    /// each channel by inverting the logarithmic scale relative to it.
    pub fn get_color_rgba(&self) -> (r: [u8; 4])
        ensures
            r@[0] == relative_level(self.color@[0], strongest(self.color)),
            r@[1] == relative_level(self.color@[1], strongest(self.color)),
            r@[2] == relative_level(self.color@[2], strongest(self.color)),
            r@[3] == alpha_level(strongest(self.color)),
    {
        let mut m: i32 = self.color[0];
        if self.color[1] > m {
            m = self.color[1];
        }
        if self.color[2] > m {
            m = self.color[2];
        }
        if m < 1 {
            m = 1;
        }
        assert(m == strongest(self.color));
        let mut rgba: [u8; 4] = [0, 0, 0, 0];
        let mut i: usize = 0;
        while i < 3
            invariant
                0 <= i <= 3,
                1 <= m,
                m == strongest(self.color),
                rgba@.len() == 4,
                forall|j: int| 0 <= j < i ==> rgba@[j] == relative_level(#[trigger] self.color@[j], m as int),
            decreases 3 - i,
        {
            let level = relative_channel(self.color[i], m);
            rgba.set(i, level);
            i = i + 1;
        }
        let alpha: u64 = (255 * m as u64 + 0x3fff_ffff) / 0x7fff_ffff;
        assert(alpha <= 255) by (nonlinear_arith)
            requires
                alpha == (255 * m + 0x3fff_ffff) / 0x7fff_ffff,
                1 <= m <= 0x7fff_ffff,
        ;
        rgba.set(3, alpha as u8);
        rgba
    }

    /// Replaces the colour by the light of an 8-bit RGBA colour.
    pub fn set_color_rgba(&mut self, rgba: [u8; 4])
        ensures
            final(self).color == [
                scaled_channel(rgba@[0], rgba@[3]) as i32,
                scaled_channel(rgba@[1], rgba@[3]) as i32,
                scaled_channel(rgba@[2], rgba@[3]) as i32,
            ],
    {
        *self = LightDefinition::from(rgba);
    }
}

/// A light that shines equally in every direction.
#[derive(Clone, Copy, Debug, Default, PartialEq, Eq)]
pub struct UndirectedLightEmitter {
    pub props: LightDefinition,
}

/// What the lights map holds at a tile: an emitter or nothing.
#[derive(Clone, Copy, Debug, PartialEq, Eq)]
pub struct LightEmitterCell {
    pub undirected_lights: Option<UndirectedLightEmitter>,
}

impl Default for LightEmitterCell {
    fn default() -> (r: LightEmitterCell)
        ensures
            r.undirected_lights is None,
    {
        LightEmitterCell { undirected_lights: None }
    }
}

/// Places lime green lights near the world origin.
#[derive(Clone, Copy, Debug, Default)]
pub struct LightsMapProducer;

/// The light of the colour lime green, `rgb(50, 205, 50)`.
pub open spec fn lime_light() -> LightDefinition {
    LightDefinition {
        color: [
            scaled_channel(50, 255) as i32,
            scaled_channel(205, 255) as i32,
            scaled_channel(50, 255) as i32,
        ],
    }
}

/// The lights map at world tile `(x, y)`: a lime green emitter within
/// distance 3 of the origin, nothing elsewhere.
pub open spec fn emitter_at(x: int, y: int) -> LightEmitterCell {
    if x * x + y * y < 9 {
        LightEmitterCell { undirected_lights: Some(UndirectedLightEmitter { props: lime_light() }) }
    } else {
        LightEmitterCell { undirected_lights: None }
    }
}

fn emitter_cell(x: i128, y: i128) -> (r: LightEmitterCell)
    ensures
        r == emitter_at(x as int, y as int),
{
    if -3 < x && x < 3 && -3 < y && y < 3 {
        assert(0 <= x * x <= 4 && 0 <= y * y <= 4) by (nonlinear_arith)
            requires
                -3 < x < 3,
                -3 < y < 3,
        ;
        if x * x + y * y < 9 {
            let props = LightDefinition { color: [scaled(50, 255), scaled(205, 255), scaled(50, 255)] };
            return LightEmitterCell { undirected_lights: Some(UndirectedLightEmitter { props }) };
        }
    }
    assert(x * x + y * y >= 9) by (nonlinear_arith)
        requires
            !(-3 < x < 3 && -3 < y < 3),
    ;
    LightEmitterCell { undirected_lights: None }
}

impl MapDataProducer for LightsMapProducer {
    type Item = LightEmitterCell;

    open spec fn spec_default_value(&self) -> LightEmitterCell {
        LightEmitterCell { undirected_lights: None }
    }

    open spec fn generated(&self, coords: ChunkCoords, dimension_tiles: nat) -> Seq<LightEmitterCell> {
        Seq::new(
            dimension_tiles * dimension_tiles,
            |i: int|
                {
                    let q = box_point(coords.key(), dimension_tiles as int, i);
                    emitter_at(q.0, q.1)
                },
        )
    }

    fn default_value(&self) -> (r: LightEmitterCell) {
        LightEmitterCell { undirected_lights: None }
    }

    fn generate_chunk(&self, coords: ChunkCoords, dimension_tiles: usize) -> (r: DataChunk<LightEmitterCell>) {
        let d = dimension_tiles;
        proof {
            lemma_side_bound(d as int);
        }
        let total = d * d;
        let mut cells: Vec<LightEmitterCell> = Vec::new();
        let mut i: usize = 0;
        while i < total
            invariant
                0 < d <= 0x1_0000_0000,
                total == d * d,
                i <= total,
                cells@.len() == i,
                forall|j: int| 0 <= j < i ==> #[trigger] cells@[j] == self.generated(coords, d as nat)[j],
            decreases total - i,
        {
            let x = chunk_tile(coords.x, d, i % d);
            proof {
                lemma_cell_row_col(i as int, d as int);
            }
            let y = chunk_tile(coords.y, d, i / d);
            cells.push(emitter_cell(x, y));
            i = i + 1;
        }
        assert(cells@ =~= self.generated(coords, d as nat));
        DataChunk { grid: FlatGrid::from_cells(d, cells) }
    }
}

} // verus!
