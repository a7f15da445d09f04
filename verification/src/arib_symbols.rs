//! The additional symbols of ARIB STD-B24, rows 90 to 94, as Unicode encodes
//! them; 0 where a cell has no character of its own.

use vstd::prelude::*;

verus! {

/// Cell `(row - 90) * 94 + (column - 1)` for rows and columns counted from 1.
pub const ARIB_ADDITIONAL: [u32; 470] = [
    // row 90
    0x26cc, 0x26cd, 0x2757, 0x26cf, 0x26d0, 0x26d1, 0, 0x26d2,
    0x26d5, 0x26d3, 0x26d4, 0, 0, 0, 0, 0x1f17f,
    0x1f18a, 0, 0, 0x26d6, 0x26d7, 0x26d8, 0x26d9, 0x26da,
    0x26db, 0x26dc, 0x26dd, 0x26de, 0x26df, 0x26e0, 0x26e1, 0x2b55,
    0x3248, 0x3249, 0x324a, 0x324b, 0x324c, 0x324d, 0x324e, 0x324f,
    0, 0, 0, 0, 0x2491, 0x2492, 0x2493, 0x1f14a,
    0x1f14c, 0x1f13f, 0x1f146, 0x1f14b, 0x1f210, 0x1f211, 0x1f212, 0x1f213,
    0x1f142, 0x1f214, 0x1f215, 0x1f216, 0x1f14d, 0x1f131, 0x1f13d, 0x2b1b,
    0x2b24, 0x1f217, 0x1f218, 0x1f219, 0x1f21a, 0x1f21b, 0x26bf, 0x1f21c,
    0x1f21d, 0x1f21e, 0x1f21f, 0x1f220, 0x1f221, 0x1f222, 0x1f223, 0x1f224,
    0x1f225, 0x1f14e, 0x3299, 0x1f200, 0, 0, 0, 0,
    0, 0, 0, 0, 0, 0,
    // row 91
    0x26e3, 0x2b56, 0x2b57, 0x2b58, 0x2b59, 0x2613, 0x328b, 0x3012,
    0x26e8, 0x3246, 0x3245, 0x26e9, 0xfd6, 0x26ea, 0x26eb, 0x26ec,
    0x2668, 0x26ed, 0x26ee, 0x26ef, 0x2693, 0x2708, 0x26f0, 0x26f1,
    0x26f2, 0x26f3, 0x26f4, 0x26f5, 0x1f157, 0x24b9, 0x24c8, 0x26f6,
    0x1f15f, 0x1f18b, 0x1f18d, 0x1f18c, 0x1f179, 0x26f7, 0x26f8, 0x26f9,
    0x26fa, 0x1f17b, 0x260e, 0x26fb, 0x26fc, 0x26fd, 0x26fe, 0x1f17c,
    0x26ff, 0, 0, 0, 0, 0, 0, 0,
    0, 0, 0, 0, 0, 0, 0, 0,
    0, 0, 0, 0, 0, 0, 0, 0,
    0, 0, 0, 0, 0, 0, 0, 0,
    0, 0, 0, 0, 0, 0, 0, 0,
    0, 0, 0, 0, 0, 0,
    // row 92
    0x27a1, 0x2b05, 0x2b06, 0x2b07, 0x2b2f, 0x2b2e, 0x5e74, 0x6708,
    0x65e5, 0x5186, 0x33a1, 0x33a5, 0x339d, 0x33a0, 0x33a4, 0x1f100,
    0x2488, 0x2489, 0x248a, 0x248b, 0x248c, 0x248d, 0x248e, 0x248f,
    0x2490, 0x6c0f, 0x526f, 0x5143, 0x6545, 0x524d, 0x65b0, 0x1f101,
    0x1f102, 0x1f103, 0x1f104, 0x1f105, 0x1f106, 0x1f107, 0x1f108, 0x1f109,
    0x1f10a, 0x3233, 0x3236, 0x3232, 0x3231, 0x3239, 0x3244, 0x25b6,
    0x25c0, 0x3016, 0x3017, 0x27d0, 0xb2, 0xb3, 0x1f12d, 0,
    0, 0, 0, 0, 0, 0, 0, 0,
    0, 0, 0, 0, 0, 0, 0, 0,
    0, 0, 0, 0, 0, 0, 0, 0,
    0, 0, 0, 0, 0, 0x1f12c, 0x1f12b, 0x3247,
    0x1f190, 0x1f226, 0x213b, 0, 0, 0,
    // row 93
    0x322a, 0x322b, 0x322c, 0x322d, 0x322e, 0x322f, 0x3230, 0x3237,
    0x337e, 0x337d, 0x337c, 0x337b, 0x2116, 0x2121, 0x3036, 0x26be,
    0x1f240, 0x1f241, 0x1f242, 0x1f243, 0x1f244, 0x1f245, 0x1f246, 0x1f247,
    0x1f248, 0x1f12a, 0x1f227, 0x1f228, 0x1f229, 0x1f214, 0x1f22a, 0x1f22b,
    0x1f22c, 0x1f22d, 0x1f22e, 0x1f22f, 0x1f230, 0x1f231, 0x2113, 0x338f,
    0x3390, 0x33ca, 0x339e, 0x33a2, 0x3371, 0, 0, 0xbd,
    0x2189, 0x2153, 0x2154, 0xbc, 0xbe, 0x2155, 0x2156, 0x2157,
    0x2158, 0x2159, 0x215a, 0x2150, 0x215b, 0x2151, 0x2152, 0x2600,
    0x2601, 0x2602, 0x26c4, 0x2616, 0x2617, 0x26c9, 0x26ca, 0x2666,
    0x2665, 0x2663, 0x2660, 0x26cb, 0x2a00, 0x203c, 0x2049, 0x26c5,
    0x2614, 0x26c6, 0x2603, 0x26c7, 0x26a1, 0x26c8, 0, 0x269e,
    0x269f, 0x266b, 0x260e, 0, 0, 0,
    // row 94
    0x2160, 0x2161, 0x2162, 0x2163, 0x2164, 0x2165, 0x2166, 0x2167,
    0x2168, 0x2169, 0x216a, 0x216b, 0x2470, 0x2471, 0x2472, 0x2473,
    0x2474, 0x2475, 0x2476, 0x2477, 0x2478, 0x2479, 0x247a, 0x247b,
    0x247c, 0x247d, 0x247e, 0x247f, 0x3251, 0x3252, 0x3253, 0x3254,
    0x1f110, 0x1f111, 0x1f112, 0x1f113, 0x1f114, 0x1f115, 0x1f116, 0x1f117,
    0x1f118, 0x1f119, 0x1f11a, 0x1f11b, 0x1f11c, 0x1f11d, 0x1f11e, 0x1f11f,
    0x1f120, 0x1f121, 0x1f122, 0x1f123, 0x1f124, 0x1f125, 0x1f126, 0x1f127,
    0x1f128, 0x1f129, 0x3255, 0x3256, 0x3257, 0x3258, 0x3259, 0x325a,
    0x2460, 0x2461, 0x2462, 0x2463, 0x2464, 0x2465, 0x2466, 0x2467,
    0x2468, 0x2469, 0x246a, 0x246b, 0x246c, 0x246d, 0x246e, 0x246f,
    0x2776, 0x2777, 0x2778, 0x2779, 0x277a, 0x277b, 0x277c, 0x277d,
    0x277e, 0x277f, 0x24eb, 0x24ec, 0x325b, 0,
];

} // verus!
