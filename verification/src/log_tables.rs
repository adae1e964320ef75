//! Coefficient and lookup tables of the accurate logarithm, each entry a
//! `(hi, lo, ex, sign)` quadruple of a `DInt64`.
use vstd::prelude::*;

verus! {

/// The value `-1`.
pub const M_ONE: (u64, u64, i64, u64) = (0x8000000000000000, 0x0, 0, 0x1);

/// An approximation of `log(2)` with absolute error less than `2^-129.97`.
pub const LOG2: (u64, u64, i64, u64) = (0xb17217f7d1cf79ab, 0xc9e3b39803f2f6af, -1, 0x0);

/// An approximation of `1 / log(2)`.
pub const LOG2_INV: (u64, u64, i64, u64) = (0xb8aa3b295c17f0bb, 0xbe87fed0691d3e89, 12, 0x0);

/// For each lookup index, an approximation of the inverse of the center of
/// its interval of reduced arguments.
pub const INVERSE_2: [(u64, u64, i64, u64); 240] = [
    (0x8000000000000000, 0x0, 1, 0x0),
    (0xfe03f80fe03f80ff, 0x0, 0, 0x0),
    (0xfc0fc0fc0fc0fc10, 0x0, 0, 0x0),
    (0xfa232cf252138ac0, 0x0, 0, 0x0),
    (0xf83e0f83e0f83e10, 0x0, 0, 0x0),
    (0xf6603d980f6603da, 0x0, 0, 0x0),
    (0xf4898d5f85bb3951, 0x0, 0, 0x0),
    (0xf2b9d6480f2b9d65, 0x0, 0, 0x0),
    (0xf0f0f0f0f0f0f0f1, 0x0, 0, 0x0),
    (0xef2eb71fc4345239, 0x0, 0, 0x0),
    (0xed7303b5cc0ed731, 0x0, 0, 0x0),
    (0xebbdb2a5c1619c8c, 0x0, 0, 0x0),
    (0xea0ea0ea0ea0ea0f, 0x0, 0, 0x0),
    (0xe865ac7b7603a197, 0x0, 0, 0x0),
    (0xe6c2b4481cd8568a, 0x0, 0, 0x0),
    (0xe525982af70c880f, 0x0, 0, 0x0),
    (0xe38e38e38e38e38f, 0x0, 0, 0x0),
    (0xe1fc780e1fc780e2, 0x0, 0, 0x0),
    (0xe070381c0e070382, 0x0, 0, 0x0),
    (0xdee95c4ca037ba58, 0x0, 0, 0x0),
    (0xdd67c8a60dd67c8b, 0x0, 0, 0x0),
    (0xdbeb61eed19c5958, 0x0, 0, 0x0),
    (0xda740da740da740e, 0x0, 0, 0x0),
    (0xd901b2036406c80e, 0x0, 0, 0x0),
    (0xd79435e50d79435f, 0x0, 0, 0x0),
    (0xd62b80d62b80d62c, 0x0, 0, 0x0),
    (0xd4c77b03531dec0e, 0x0, 0, 0x0),
    (0xd3680d3680d3680e, 0x0, 0, 0x0),
    (0xd20d20d20d20d20e, 0x0, 0, 0x0),
    (0xd0b69fcbd2580d0c, 0x0, 0, 0x0),
    (0xcf6474a8819ec8ea, 0x0, 0, 0x0),
    (0xce168a7725080ce2, 0x0, 0, 0x0),
    (0xcccccccccccccccd, 0x0, 0, 0x0),
    (0xcb8727c065c393e1, 0x0, 0, 0x0),
    (0xca4587e6b74f032a, 0x0, 0, 0x0),
    (0xc907da4e871146ad, 0x0, 0, 0x0),
    (0xc7ce0c7ce0c7ce0d, 0x0, 0, 0x0),
    (0xc6980c6980c6980d, 0x0, 0, 0x0),
    (0xc565c87b5f9d4d1c, 0x0, 0, 0x0),
    (0xc4372f855d824ca6, 0x0, 0, 0x0),
    (0xc30c30c30c30c30d, 0x0, 0, 0x0),
    (0xc1e4bbd595f6e948, 0x0, 0, 0x0),
    (0xc0c0c0c0c0c0c0c1, 0x0, 0, 0x0),
    (0xbfa02fe80bfa02ff, 0x0, 0, 0x0),
    (0xbe82fa0be82fa0bf, 0x0, 0, 0x0),
    (0xbd69104707661aa3, 0x0, 0, 0x0),
    (0xbc52640bc52640bd, 0x0, 0, 0x0),
    (0xbb3ee721a54d880c, 0x0, 0, 0x0),
    (0xba2e8ba2e8ba2e8c, 0x0, 0, 0x0),
    (0xb92143fa36f5e02f, 0x0, 0, 0x0),
    (0xb81702e05c0b8171, 0x0, 0, 0x0),
    (0xb70fbb5a19be3659, 0x0, 0, 0x0),
    (0xb60b60b60b60b60c, 0x0, 0, 0x0),
    (0xb509e68a9b948220, 0x0, 0, 0x0),
    (0xb40b40b40b40b40c, 0x0, 0, 0x0),
    (0xb30f63528917c80c, 0x0, 0, 0x0),
    (0xb21642c8590b2165, 0x0, 0, 0x0),
    (0xb11fd3b80b11fd3c, 0x0, 0, 0x0),
    (0xb02c0b02c0b02c0c, 0x0, 0, 0x0),
    (0xaf3addc680af3ade, 0x0, 0, 0x0),
    (0xae4c415c9882b932, 0x0, 0, 0x0),
    (0xad602b580ad602b6, 0x0, 0, 0x0),
    (0xac7691840ac76919, 0x0, 0, 0x0),
    (0xab8f69e28359cd12, 0x0, 0, 0x0),
    (0xaaaaaaaaaaaaaaab, 0x0, 0, 0x0),
    (0xa9c84a47a07f5638, 0x0, 0, 0x0),
    (0xa8e83f5717c0a8e9, 0x0, 0, 0x0),
    (0xa80a80a80a80a80b, 0x0, 0, 0x0),
    (0xa72f05397829cbc2, 0x0, 0, 0x0),
    (0xa655c4392d7b73a8, 0x0, 0, 0x0),
    (0xa57eb50295fad40b, 0x0, 0, 0x0),
    (0xa4a9cf1d96833752, 0x0, 0, 0x0),
    (0xa3d70a3d70a3d70b, 0x0, 0, 0x0),
    (0xa3065e3fae7cd0e1, 0x0, 0, 0x0),
    (0xa237c32b16cfd773, 0x0, 0, 0x0),
    (0xa16b312ea8fc377d, 0x0, 0, 0x0),
    (0xa0a0a0a0a0a0a0a1, 0x0, 0, 0x0),
    (0x9fd809fd809fd80a, 0x0, 0, 0x0),
    (0x9f1165e7254813e3, 0x0, 0, 0x0),
    (0x9e4cad23dd5f3a21, 0x0, 0, 0x0),
    (0x9d89d89d89d89d8a, 0x0, 0, 0x0),
    (0x9cc8e160c3fb19b9, 0x0, 0, 0x0),
    (0x9c09c09c09c09c0a, 0x0, 0, 0x0),
    (0x9b4c6f9ef03a3caa, 0x0, 0, 0x0),
    (0x9a90e7d95bc609aa, 0x0, 0, 0x0),
    (0x99d722dabde58f07, 0x0, 0, 0x0),
    (0x991f1a515885fb38, 0x0, 0, 0x0),
    (0x9868c809868c8099, 0x0, 0, 0x0),
    (0x97b425ed097b425f, 0x0, 0, 0x0),
    (0x97012e025c04b80a, 0x0, 0, 0x0),
    (0x964fda6c0964fda7, 0x0, 0, 0x0),
    (0x95a02568095a0257, 0x0, 0, 0x0),
    (0x94f2094f2094f20a, 0x0, 0, 0x0),
    (0x9445809445809446, 0x0, 0, 0x0),
    (0x939a85c40939a85d, 0x0, 0, 0x0),
    (0x92f113840497889d, 0x0, 0, 0x0),
    (0x924924924924924a, 0x0, 0, 0x0),
    (0x91a2b3c4d5e6f80a, 0x0, 0, 0x0),
    (0x90fdbc090fdbc091, 0x0, 0, 0x0),
    (0x905a38633e06c43b, 0x0, 0, 0x0),
    (0x8fb823ee08fb823f, 0x0, 0, 0x0),
    (0x8f1779d9fdc3a219, 0x0, 0, 0x0),
    (0x8e78356d1408e784, 0x0, 0, 0x0),
    (0x8dda520237694809, 0x0, 0, 0x0),
    (0x8d3dcb08d3dcb08e, 0x0, 0, 0x0),
    (0x8ca29c046514e024, 0x0, 0, 0x0),
    (0x8c08c08c08c08c09, 0x0, 0, 0x0),
    (0x8b70344a139bc75b, 0x0, 0, 0x0),
    (0x8ad8f2fba9386823, 0x0, 0, 0x0),
    (0x8a42f8705669db47, 0x0, 0, 0x0),
    (0x89ae4089ae4089af, 0x0, 0, 0x0),
    (0x891ac73ae9819b51, 0x0, 0, 0x0),
    (0x8888888888888889, 0x0, 0, 0x0),
    (0x87f78087f78087f8, 0x0, 0, 0x0),
    (0x8767ab5f34e47ef2, 0x0, 0, 0x0),
    (0x86d905447a34acc7, 0x0, 0, 0x0),
    (0x864b8a7de6d1d609, 0x0, 0, 0x0),
    (0x85bf37612cee3c9b, 0x0, 0, 0x0),
    (0x8534085340853409, 0x0, 0, 0x0),
    (0x84a9f9c8084a9f9d, 0x0, 0, 0x0),
    (0x8421084210842109, 0x0, 0, 0x0),
    (0x839930523fbe3368, 0x0, 0, 0x0),
    (0x83126e978d4fdf3c, 0x0, 0, 0x0),
    (0x828cbfbeb9a020a4, 0x0, 0, 0x0),
    (0x8208208208208209, 0x0, 0, 0x0),
    (0x81848da8faf0d278, 0x0, 0, 0x0),
    (0x8102040810204082, 0x0, 0, 0x0),
    (0x8000000000000000, 0x0, 0, 0x0),
    (0x8000000000000000, 0x0, 0, 0x0),
    (0xff00ff00ff00ff02, 0x0, -1, 0x0),
    (0xfe03f80fe03f80ff, 0x0, -1, 0x0),
    (0xfd08e5500fd08e56, 0x0, -1, 0x0),
    (0xfc0fc0fc0fc0fc11, 0x0, -1, 0x0),
    (0xfb18856506ddaba7, 0x0, -1, 0x0),
    (0xfa232cf252138ac1, 0x0, -1, 0x0),
    (0xf92fb2211855a866, 0x0, -1, 0x0),
    (0xf83e0f83e0f83e11, 0x0, -1, 0x0),
    (0xf74e3fc22c700f76, 0x0, -1, 0x0),
    (0xf6603d980f6603db, 0x0, -1, 0x0),
    (0xf57403d5d00f5741, 0x0, -1, 0x0),
    (0xf4898d5f85bb3951, 0x0, -1, 0x0),
    (0xf3a0d52cba872337, 0x0, -1, 0x0),
    (0xf2b9d6480f2b9d66, 0x0, -1, 0x0),
    (0xf1d48bcee0d399fb, 0x0, -1, 0x0),
    (0xf0f0f0f0f0f0f0f2, 0x0, -1, 0x0),
    (0xf00f00f00f00f010, 0x0, -1, 0x0),
    (0xef2eb71fc4345239, 0x0, -1, 0x0),
    (0xee500ee500ee5010, 0x0, -1, 0x0),
    (0xed7303b5cc0ed731, 0x0, -1, 0x0),
    (0xec979118f3fc4da3, 0x0, -1, 0x0),
    (0xebbdb2a5c1619c8d, 0x0, -1, 0x0),
    (0xeae56403ab959010, 0x0, -1, 0x0),
    (0xea0ea0ea0ea0ea10, 0x0, -1, 0x0),
    (0xe939651fe2d8d35d, 0x0, -1, 0x0),
    (0xe865ac7b7603a198, 0x0, -1, 0x0),
    (0xe79372e225fe30da, 0x0, -1, 0x0),
    (0xe6c2b4481cd8568a, 0x0, -1, 0x0),
    (0xe5f36cb00e5f36cc, 0x0, -1, 0x0),
    (0xe525982af70c880f, 0x0, -1, 0x0),
    (0xe45932d7dc52100f, 0x0, -1, 0x0),
    (0xe38e38e38e38e38f, 0x0, -1, 0x0),
    (0xe2c4a6886a4c2e11, 0x0, -1, 0x0),
    (0xe1fc780e1fc780e3, 0x0, -1, 0x0),
    (0xe135a9c97500e137, 0x0, -1, 0x0),
    (0xe070381c0e070383, 0x0, -1, 0x0),
    (0xdfac1f74346c5760, 0x0, -1, 0x0),
    (0xdee95c4ca037ba58, 0x0, -1, 0x0),
    (0xde27eb2c41f3d9d2, 0x0, -1, 0x0),
    (0xdd67c8a60dd67c8b, 0x0, -1, 0x0),
    (0xdca8f158c7f91ab9, 0x0, -1, 0x0),
    (0xdbeb61eed19c5959, 0x0, -1, 0x0),
    (0xdb2f171df770291a, 0x0, -1, 0x0),
    (0xda740da740da740f, 0x0, -1, 0x0),
    (0xd9ba4256c0366e92, 0x0, -1, 0x0),
    (0xd901b2036406c80f, 0x0, -1, 0x0),
    (0xd84a598ec9151f44, 0x0, -1, 0x0),
    (0xd79435e50d79435f, 0x0, -1, 0x0),
    (0xd6df43fca482f00e, 0x0, -1, 0x0),
    (0xd62b80d62b80d62d, 0x0, -1, 0x0),
    (0xd578e97c3f5fe552, 0x0, -1, 0x0),
    (0xd4c77b03531dec0e, 0x0, -1, 0x0),
    (0xd4173289870ac52f, 0x0, -1, 0x0),
    (0xd3680d3680d3680e, 0x0, -1, 0x0),
    (0xd2ba083b445250ac, 0x0, -1, 0x0),
    (0xd20d20d20d20d20e, 0x0, -1, 0x0),
    (0xd161543e28e50275, 0x0, -1, 0x0),
    (0xd0b69fcbd2580d0c, 0x0, -1, 0x0),
    (0xd00d00d00d00d00e, 0x0, -1, 0x0),
    (0xcf6474a8819ec8ea, 0x0, -1, 0x0),
    (0xcebcf8bb5b4169cc, 0x0, -1, 0x0),
    (0xce168a7725080ce2, 0x0, -1, 0x0),
    (0xcd712752a886d243, 0x0, -1, 0x0),
    (0xccccccccccccccce, 0x0, -1, 0x0),
    (0xcc29786c7607f9a0, 0x0, -1, 0x0),
    (0xcb8727c065c393e1, 0x0, -1, 0x0),
    (0xcae5d85f1bbd6c96, 0x0, -1, 0x0),
    (0xca4587e6b74f032a, 0x0, -1, 0x0),
    (0xc9a633fcd967300e, 0x0, -1, 0x0),
    (0xc907da4e871146ae, 0x0, -1, 0x0),
    (0xc86a78900c86a78a, 0x0, -1, 0x0),
    (0xc7ce0c7ce0c7ce0d, 0x0, -1, 0x0),
    (0xc73293d789b9f839, 0x0, -1, 0x0),
    (0xc6980c6980c6980d, 0x0, -1, 0x0),
    (0xc5fe740317f9d00d, 0x0, -1, 0x0),
    (0xc565c87b5f9d4d1d, 0x0, -1, 0x0),
    (0xc4ce07b00c4ce07c, 0x0, -1, 0x0),
    (0xc4372f855d824ca7, 0x0, -1, 0x0),
    (0xc3a13de60495c774, 0x0, -1, 0x0),
    (0xc30c30c30c30c30d, 0x0, -1, 0x0),
    (0xc2780613c0309e03, 0x0, -1, 0x0),
    (0xc1e4bbd595f6e948, 0x0, -1, 0x0),
    (0xc152500c152500c2, 0x0, -1, 0x0),
    (0xc0c0c0c0c0c0c0c2, 0x0, -1, 0x0),
    (0xc0300c0300c0300d, 0x0, -1, 0x0),
    (0xbfa02fe80bfa0300, 0x0, -1, 0x0),
    (0xbf112a8ad278e8de, 0x0, -1, 0x0),
    (0xbe82fa0be82fa0c0, 0x0, -1, 0x0),
    (0xbdf59c91700bdf5b, 0x0, -1, 0x0),
    (0xbd69104707661aa4, 0x0, -1, 0x0),
    (0xbcdd535db1cc5b7c, 0x0, -1, 0x0),
    (0xbc52640bc52640bd, 0x0, -1, 0x0),
    (0xbbc8408cd63069a2, 0x0, -1, 0x0),
    (0xbb3ee721a54d880d, 0x0, -1, 0x0),
    (0xbab656100bab6562, 0x0, -1, 0x0),
    (0xba2e8ba2e8ba2e8d, 0x0, -1, 0x0),
    (0xb9a7862a0ff46589, 0x0, -1, 0x0),
    (0xb92143fa36f5e02f, 0x0, -1, 0x0),
    (0xb89bc36ce3e0453b, 0x0, -1, 0x0),
    (0xb81702e05c0b8171, 0x0, -1, 0x0),
    (0xb79300b79300b794, 0x0, -1, 0x0),
    (0xb70fbb5a19be365a, 0x0, -1, 0x0),
    (0xb68d31340e4307d9, 0x0, -1, 0x0),
    (0xb60b60b60b60b60c, 0x0, -1, 0x0),
    (0xb58a485518d1e7e5, 0x0, -1, 0x0),
    (0xb509e68a9b948220, 0x0, -1, 0x0),
    (0xb48a39d44685fe98, 0x0, -1, 0x0),
    (0xb40b40b40b40b40c, 0x0, -1, 0x0),
    (0xb38cf9b00b38cf9c, 0x0, -1, 0x0),
    (0xb30f63528917c80c, 0x0, -1, 0x0),
    (0xb2927c29da5519d0, 0x0, -1, 0x0),
];

/// For each lookup index, minus the logarithm of the matching `INVERSE_2`
/// entry.
pub const LOG_INV_2: [(u64, u64, i64, u64); 240] = [
    (0xb17217f7d1cf79ab, 0xc9e3b39803f2f6af, -1, 0x1),
    (0xaf74155120c9011d, 0x46d235ee63073dc, -1, 0x1),
    (0xad7a02e1b24efd32, 0x160864fd949b4bd3, -1, 0x1),
    (0xab83d135dc633301, 0xffe6607ba902ef3b, -1, 0x1),
    (0xa991713433c2b999, 0xba4aea614d05700, -1, 0x1),
    (0xa7a2d41ad270c9d7, 0xcd362382a7688479, -1, 0x1),
    (0xa5b7eb7cb860fb89, 0x7b6a62a0dec6e072, -1, 0x1),
    (0xa3d0a93f45169a4b, 0x9594fab088c0d64, -1, 0x1),
    (0xa1ecff97c91e267b, 0x1b7efae08e597e16, -1, 0x1),
    (0xa00ce1092e5498c4, 0x69879c5a30cd1241, -1, 0x1),
    (0x9e304061b5fda91a, 0x4603d87b6df81ac, -1, 0x1),
    (0x9c5710b8cbb73a42, 0xaa554b2dd4619e63, -1, 0x1),
    (0x9a81456cec642e10, 0x4d49f9aaea3cb5e0, -1, 0x1),
    (0x98aed221a03458b6, 0x732f89321647b358, -1, 0x1),
    (0x96dfaabd86fa1647, 0xd61188fbc94e2f14, -1, 0x1),
    (0x9513c36876083696, 0xb5cbc416a2418011, -1, 0x1),
    (0x934b1089a6dc93c2, 0xbf5bb3b60554e151, -1, 0x1),
    (0x918586c5f5e4bf01, 0x9f92199ed1a4bab0, -1, 0x1),
    (0x8fc31afe30b2c6de, 0xe300bf167e95da66, -1, 0x1),
    (0x8e03c24d7300395a, 0xcddae1ccce247837, -1, 0x1),
    (0x8c47720791e53314, 0x762ad19415fe25a5, -1, 0x1),
    (0x8a8e1fb794b09134, 0x9eb628dba173c82d, -1, 0x1),
    (0x88d7c11e3ad53cdc, 0x8a3111a707b6de2c, -1, 0x1),
    (0x87244c308e670a66, 0x85e005d06dbfa8f7, -1, 0x1),
    (0x8573b71682a7d21b, 0xb21f9f89c1ab80b2, -1, 0x1),
    (0x83c5f8299e2b4091, 0xb8f6fafe8fbb68b8, -1, 0x1),
    (0x821b05f3b01d6774, 0xdb0d58c3f7e2ea1e, -1, 0x1),
    (0x8072d72d903d588c, 0x7dd1b09c70c40109, -1, 0x1),
    (0xfd9ac57bd2442180, 0xaf05924d258c14c4, -2, 0x1),
    (0xfa553f7018c966f4, 0x2780a545a1b54dce, -2, 0x1),
    (0xf7150ab5a09f27f6, 0xa470250d40ebe8e, -2, 0x1),
    (0xf3da161eed6b9ab1, 0x248d42f78d3e65d2, -2, 0x1),
    (0xf0a450d139366ca7, 0x7c66eb6408ff6432, -2, 0x1),
    (0xed73aa4264b0adeb, 0x5391cf4b33e42996, -2, 0x1),
    (0xea481236f7d35bb2, 0x39a767a80d6d97e6, -2, 0x1),
    (0xe72178c0323a1a0f, 0xcc4e1653e71d9973, -2, 0x1),
    (0xe3ffce3a2aa64923, 0x8eadb651b49ac539, -2, 0x1),
    (0xe0e30349fd1cec82, 0x3e8e1802aba24d5, -2, 0x1),
    (0xddcb08dc0717d85c, 0x940a666c87842842, -2, 0x1),
    (0xdab7d02231484a93, 0xbec20cca6efe2ac4, -2, 0x1),
    (0xd7a94a92466e833c, 0xcd88bba7d0cee8df, -2, 0x1),
    (0xd49f69e456cf1b7b, 0x7f53bd2e406e66e6, -2, 0x1),
    (0xd19a201127d3c646, 0x279d79f51dcc7301, -2, 0x1),
    (0xce995f50af69d863, 0x432f3f4f861ad6a8, -2, 0x1),
    (0xcb9d1a189ab56e77, 0x7d7e9307c70c0667, -2, 0x1),
    (0xc8a5431adfb44ca6, 0x48ce7c1a75e341a, -2, 0x1),
    (0xc5b1cd44596fa51f, 0xf218fb8f9f9ef27f, -2, 0x1),
    (0xc2c2abbb6e5fd570, 0x3337789d592e296, -2, 0x1),
    (0xbfd7d1dec0a8df70, 0x37eda996244bccaf, -2, 0x1),
    (0xbcf13343e7d9ec7f, 0x2afd17781bb3afea, -2, 0x1),
    (0xba0ec3b633dd8b0b, 0x91dc60b2b059a609, -2, 0x1),
    (0xb730773578cb90b3, 0xaa1116c3466beb6c, -2, 0x1),
    (0xb45641f4e350a0d4, 0xe756eba00bc33976, -2, 0x1),
    (0xb1801859d56249de, 0x98ce51fff99479cb, -2, 0x1),
    (0xaeadeefacaf97d37, 0x9dd6e688ebb13b01, -2, 0x1),
    (0xabdfba9e468fd6f9, 0x472ea07749ce6bd1, -2, 0x1),
    (0xa9157039c51ebe72, 0xe164c759686a2207, -2, 0x1),
    (0xa64f04f0b961df78, 0x54f5275c2d15c21e, -2, 0x1),
    (0xa38c6e138e20d834, 0xd698298adddd7f30, -2, 0x1),
    (0xa0cda11eaf46390e, 0x632438273918db7d, -2, 0x1),
    (0x9e1293b9998c1dad, 0x3b035eae273a855c, -2, 0x1),
    (0x9b5b3bb5f088b768, 0x5078bbe3d392be24, -2, 0x1),
    (0x98a78f0e9ae71d87, 0x64dec34784707838, -2, 0x1),
    (0x95f783e6e49a9cfc, 0x25004f3ef063312, -2, 0x1),
    (0x934b1089a6dc93c2, 0xdf5bb3b60554e151, -2, 0x1),
    (0x90a22b6875c6a1f8, 0x8e91aeba609c8876, -2, 0x1),
    (0x8dfccb1ad35ca6ef, 0x9947bdb6ddcaf59a, -2, 0x1),
    (0x8b5ae65d67db9acf, 0x7ba5168126a58b99, -2, 0x1),
    (0x88bc74113f23def3, 0xbc5a0fe396f40f1c, -2, 0x1),
    (0x86216b3b0b17188c, 0x363ceae88f720f1d, -2, 0x1),
    (0x8389c3026ac3139d, 0x6adda9d2270fa1f3, -2, 0x1),
    (0x80f572b1363487bc, 0xedbd0b5b3479d5f2, -2, 0x1),
    (0xfcc8e3659d9bcbf1, 0x8a0cdf301431b60b, -3, 0x1),
    (0xf7ad6f26e7ff2efc, 0x9cd2238f75f969ad, -3, 0x1),
    (0xf29877ff38809097, 0x2b020fa1820c948d, -3, 0x1),
    (0xed89ed86a44a01ab, 0x9d49f96cb88317a, -3, 0x1),
    (0xe881bf932af3dac3, 0x2524848e3443e03f, -3, 0x1),
    (0xe37fde37807b84e3, 0x5e9a750b6b68781c, -3, 0x1),
    (0xde8439c1dec5687c, 0x9d57da945b5d0aa6, -3, 0x1),
    (0xd98ec2bade71e53e, 0xd0a98f2ad65bee96, -3, 0x1),
    (0xd49f69e456cf1b7a, 0x5f53bd2e406e66e7, -3, 0x1),
    (0xcfb6203844b3209b, 0x18cb02f33f79c16b, -3, 0x1),
    (0xcad2d6e7b80bf915, 0xcc507fb7a3d0bf69, -3, 0x1),
    (0xc5f57f59c7f46156, 0x9a8b6997a402bf30, -3, 0x1),
    (0xc11e0b2a8d1e0de1, 0xda631e830fd308fe, -3, 0x1),
    (0xbc4c6c2a226399f6, 0x276ebcfb2016a433, -3, 0x1),
    (0xb780945bab55dcea, 0xb4c7bc3d32750fd9, -3, 0x1),
    (0xb2ba75f46099cf8f, 0x243c2e77904afa76, -3, 0x1),
    (0xadfa035aa1ed8fdd, 0x549767e410316d2b, -3, 0x1),
    (0xa93f2f250dac67d5, 0x9ad2fb8d48054add, -3, 0x1),
    (0xa489ec199dab06f4, 0x59fb6cf0ecb411b7, -3, 0x1),
    (0x9fda2d2cc9465c52, 0x6b2b9565f5355180, -3, 0x1),
    (0x9b2fe580ac80b182, 0x11a5b944aca8705, -3, 0x1),
    (0x968b08643409ceb9, 0xd5c0da506a088482, -3, 0x1),
    (0x91eb89524e100d28, 0xbfd3df5c52d67e77, -3, 0x1),
    (0x8d515bf11fb94f22, 0xa0713268840cbcbb, -3, 0x1),
    (0x88bc74113f23def7, 0x9c5a0fe396f40f19, -3, 0x1),
    (0x842cc5acf1d0344b, 0x6fecdfa819b96092, -3, 0x1),
    (0xff4489cedeab2ca6, 0xe17bd40d8d9291ec, -4, 0x1),
    (0xf639cc185088fe62, 0x5066e87f2c0f733d, -4, 0x1),
    (0xed393b1c22351281, 0xff4e2e660317d55f, -4, 0x1),
    (0xe442c00de2591b4c, 0xe96ab34ce0bccd10, -4, 0x1),
    (0xdb56446d6ad8df09, 0x28112e35a60e636f, -4, 0x1),
    (0xd273b2058de1bd4b, 0x36bbf837b4d320c6, -4, 0x1),
    (0xc99af2eaca4c457b, 0xeaf51f66692844b2, -4, 0x1),
    (0xc0cbf17a071f80e9, 0x396ffdf76a147cc2, -4, 0x1),
    (0xb8069857560707a7, 0xa677b4c8bec22e0, -4, 0x1),
    (0xaf4ad26cbc8e5bef, 0x9e8b8b88a14ff0c9, -4, 0x1),
    (0xa6988ae903f562f1, 0x7e858f08597b3a68, -4, 0x1),
    (0x9defad3e8f732186, 0x476d3b5b45f6ca02, -4, 0x1),
    (0x9550252238bd2468, 0x658e5a0b811c596d, -4, 0x1),
    (0x8cb9de8a32ab3694, 0x97c9859530a4514c, -4, 0x1),
    (0x842cc5acf1d0344c, 0x1fecdfa819b96094, -4, 0x1),
    (0xf7518e0035c3dd92, 0x606d89093278a931, -5, 0x1),
    (0xe65b9e6eed965c4f, 0x609f5fe2058d5ff2, -5, 0x1),
    (0xd5779687d887e0ee, 0x49dda17056e45ebb, -5, 0x1),
    (0xc4a550a4fd9a19bb, 0x3e97660a23cc5402, -5, 0x1),
    (0xb3e4a796a5dac213, 0x7cca0bcc06c2f8e, -5, 0x1),
    (0xa33576a16f1f4c79, 0x121016bd904dc95a, -5, 0x1),
    (0x9297997c68c1f4e6, 0x610db3d4dd423bc9, -5, 0x1),
    (0x820aec4f3a222397, 0xb9e3aea6c444eef6, -5, 0x1),
    (0xe31e9760a5578c6d, 0xf9eb2f284f31c35a, -6, 0x1),
    (0xc24929464655f482, 0xda5f3cc0b3251da6, -6, 0x1),
    (0xa195492cc0660519, 0x4a18dff7cdb4ae33, -6, 0x1),
    (0x8102b2c49ac23a86, 0x91d082dce3ddcd08, -6, 0x1),
    (0xc122451c45155150, 0xb16137f09a002b0e, -7, 0x1),
    (0x8080abac46f389c4, 0x662d417ced0079c9, -7, 0x1),
    (0x0, 0x0, 127, 0x0),
    (0x0, 0x0, 127, 0x0),
    (0xff805515885e014e, 0x435ab4da6a5bb50f, -9, 0x0),
    (0xff015358833c4762, 0xbb481c8ee1416999, -8, 0x0),
    (0xbee23afc0853b6a8, 0xa89782c20df350c2, -7, 0x0),
    (0xfe054587e01f1e2b, 0xf6d3a69bd5eab72f, -7, 0x0),
    (0x9e75221a352ba751, 0x452b7ea62f2198ea, -6, 0x0),
    (0xbdc8d83ead88d518, 0x7faa638b5e00ee90, -6, 0x0),
    (0xdcfe013d7c8cbfc5, 0x632dbac46f30d009, -6, 0x0),
    (0xfc14d873c1980236, 0xc7e09e3de453f5fc, -6, 0x0),
    (0x8d86cc491ecbfe03, 0xf1776453b7e82558, -5, 0x0),
    (0x9cf43dcff5eafd2f, 0x2ad90155c8a7236a, -5, 0x0),
    (0xac52dd7e4726a456, 0xa47a963a91bb3018, -5, 0x0),
    (0xbba2c7b196e7e224, 0xe7950f7252c163cf, -5, 0x0),
    (0xcae41876471f5bde, 0x91d00a417e330f8e, -5, 0x0),
    (0xda16eb88cb8df5fb, 0x28a63ecfb66e94c0, -5, 0x0),
    (0xe93b5c56d85a9083, 0xce2992bfea38e76b, -5, 0x0),
    (0xf85186008b1532f9, 0xe64b8b7759978998, -5, 0x0),
    (0x83acc1acc7238978, 0x5a5333c45b7f442e, -4, 0x0),
    (0x8b29b7751bd7073b, 0x2e0b9ee992f2372, -4, 0x0),
    (0x929fb17850a0b7be, 0x5b4d3807660516a4, -4, 0x0),
    (0x9a0ebcb0de8e848e, 0x2c1bb082689ba814, -4, 0x0),
    (0xa176e5f5323781d2, 0xdcf935996c92e8d4, -4, 0x0),
    (0xa8d839f830c1fb40, 0x4c7343517c8ac264, -4, 0x0),
    (0xb032c549ba861d83, 0x774e27bc92ce3373, -4, 0x0),
    (0xb78694572b5a5cd3, 0x24cdcf68cdb2067c, -4, 0x0),
    (0xbed3b36bd8966419, 0x7c0644d7d9ed08b4, -4, 0x0),
    (0xc61a2eb18cd907a1, 0xe5a1532f6d5a1ac1, -4, 0x0),
    (0xcd5a1231019d66d7, 0x761e3e7b171e44b2, -4, 0x0),
    (0xd49369d256ab1b1f, 0x9e9154e1d5263cda, -4, 0x0),
    (0xdbc6415d876d0839, 0x3e33c0c9f8824f54, -4, 0x0),
    (0xe2f2a47ade3a18a8, 0xa0bf7c0b0d8bb4ef, -4, 0x0),
    (0xea189eb3659aeaeb, 0x93b2a3b21f448259, -4, 0x0),
    (0xf1383b7157972f48, 0x543fff0ff4f0aaf1, -4, 0x0),
    (0xf85186008b153302, 0x5e4b8b7759978993, -4, 0x0),
    (0xff64898edf55d548, 0x428ccfc99271dffa, -4, 0x0),
    (0x8338a89652cb714a, 0xb247eb86498c2ce7, -3, 0x0),
    (0x86bbf3e68472cb2f, 0xb8bd20615747126, -3, 0x0),
    (0x8a3c2c233a156341, 0x9027c74fe0e6f64f, -3, 0x0),
    (0x8db956a97b3d0143, 0xf023472cd739f9e1, -3, 0x0),
    (0x913378c852d65be6, 0x977e3013d10f7525, -3, 0x0),
    (0x94aa97c0ffa91a5d, 0x4ee3880fb7d34429, -3, 0x0),
    (0x981eb8c723fe97f2, 0x1f1c134fb702d433, -3, 0x0),
    (0x9b8fe100f47ba1d8, 0x4b62af189fcba0d, -3, 0x0),
    (0x9efe158766314e4f, 0x4d71827efe892fc8, -3, 0x0),
    (0xa2695b665be8f338, 0x4eca87c3f0f06211, -3, 0x0),
    (0xa5d1b79cd2af2aca, 0x8837986ceabfbed6, -3, 0x0),
    (0xa9372f1d0da1bd10, 0x580eb71e58cd36e5, -3, 0x0),
    (0xac99c6ccc1042e94, 0x3dd557528315838d, -3, 0x0),
    (0xaff983853c9e9e40, 0x5f105039091dd7f5, -3, 0x0),
    (0xb3566a13956a86f4, 0x471b1e1574d9fd55, -3, 0x0),
    (0xb6b07f38ce90e463, 0x7bb2e265d0de37e1, -3, 0x0),
    (0xba07c7aa01bd2648, 0x43f9d57b324bd05f, -3, 0x0),
    (0xbd5c481086c848db, 0xbb596b5030403242, -3, 0x0),
    (0xc0ae050a1abf56ad, 0x2f7f8c5fa9c50d76, -3, 0x0),
    (0xc3fd03290648847d, 0x30480bee4cbbd698, -3, 0x0),
    (0xc74946f4436a054e, 0xf4f5cb531201c0d3, -3, 0x0),
    (0xca92d4e7a2b5a3ad, 0xc983a9c5c4b3b135, -3, 0x0),
    (0xcdd9b173efdc1aaa, 0x8863e007c184a1e7, -3, 0x0),
    (0xd11de0ff15ab18c6, 0xd88d83d4cc613f21, -3, 0x0),
    (0xd45f67e44178c612, 0x5486e73c615158b4, -3, 0x0),
    (0xd79e4a7405ff96c3, 0x1300c9be67ae5da0, -3, 0x0),
    (0xdada8cf47dad236d, 0xdffb833c3409ee7e, -3, 0x0),
    (0xde1433a16c66b14c, 0xde744870f54f0f18, -3, 0x0),
    (0xe14b42ac60c60512, 0x4e38eb8092a01f06, -3, 0x0),
    (0xe47fbe3cd4d10d5b, 0x2ec0f797fdcd125c, -3, 0x0),
    (0xe7b1aa704e2ee240, 0xb40faab6d2ad0841, -3, 0x0),
    (0xeae10b5a7ddc8ad8, 0x806b2fc9a8038790, -3, 0x0),
    (0xee0de5055f63eb01, 0x90a33316df83ba5a, -3, 0x0),
    (0xf1383b7157972f4a, 0xb43fff0ff4f0aaf1, -3, 0x0),
    (0xf460129552d2ff41, 0xe62e3201bb2bbdce, -3, 0x0),
    (0xf7856e5ee2c9b28a, 0x76f2a1b84190a7dc, -3, 0x0),
    (0xfaa852b25bd9b833, 0xa6dbfa03186e0666, -3, 0x0),
    (0xfdc8c36af1f15468, 0xa3361bca696504a, -3, 0x0),
    (0x8073622d6a80e631, 0xe897009015316073, -2, 0x0),
    (0x82012ca5a68206d5, 0x8fde85afdd2bc88a, -2, 0x0),
    (0x838dc2fe6ac868e7, 0x1a3fcbdef40100cb, -2, 0x0),
    (0x851927139c871af8, 0x67bd00c38061c51f, -2, 0x0),
    (0x86a35abcd5ba5901, 0x5481c3cbd925ccd2, -2, 0x0),
    (0x882c5fcd7256a8c1, 0x39055a6598e7c29e, -2, 0x0),
    (0x89b438149d4582f5, 0x34531dba493eb5a6, -2, 0x0),
    (0x8b3ae55d5d30701a, 0xc63eab8837170480, -2, 0x0),
    (0x8cc0696ea11b7b36, 0x94361c9a28d38a6a, -2, 0x0),
    (0x8e44c60b4ccfd7dc, 0x1473aa01c7778679, -2, 0x0),
    (0x8fc7fcf24517946a, 0x380cbe769f2c6793, -2, 0x0),
    (0x914a0fde7bcb2d0e, 0xc429ed3aea197a60, -2, 0x0),
    (0x92cb0086fbb1cf75, 0xa29d47c50b1182d0, -2, 0x0),
    (0x944ad09ef4351af1, 0xa49827e081cb16ba, -2, 0x0),
    (0x95c981d5c4e924ea, 0x45404f5aa577d6b4, -2, 0x0),
    (0x974715d708e984dd, 0x6648d42840d9e6fb, -2, 0x0),
    (0x98c38e4aa20c27d2, 0x846767ec990d7333, -2, 0x0),
    (0x9a3eecd4c3eaa6ae, 0xdb3a7f6e6087b947, -2, 0x0),
    (0x9bb93315fec2d790, 0x7f589fba0865790f, -2, 0x0),
    (0x9d3262ab4a2f4e37, 0xa1ae6ba06846fae0, -2, 0x0),
    (0x9eaa7d2e0fb87c35, 0xff472bc6ce648a7d, -2, 0x0),
    (0xa0218434353f1de4, 0xd493efa632530acc, -2, 0x0),
    (0xa197795027409daa, 0x1dd1d4a6df960357, -2, 0x0),
    (0xa30c5e10e2f613e4, 0x9bd9bd99e39a20b3, -2, 0x0),
    (0xa4803402004e865c, 0x31cbe0e8824116cd, -2, 0x0),
    (0xa5f2fcabbbc506d8, 0x68ca4fb7ec323d74, -2, 0x0),
    (0xa764b99300134d79, 0xd04d10474301862, -2, 0x0),
    (0xa8d56c396fc1684c, 0x1eb067d578c4756, -2, 0x0),
    (0xaa45161d6e93167b, 0x9b081cf72249f5b2, -2, 0x0),
    (0xabb3b8ba2ad362a1, 0x1db6506cc17a01f5, -2, 0x0),
    (0xad215587a67f0cdf, 0xe890422cb86b7cb1, -2, 0x0),
    (0xae8dedfac04e5282, 0xac707b8ffc22b3e8, -2, 0x0),
    (0xaff983853c9e9e3f, 0xc5105039091dd7f8, -2, 0x0),
    (0xb1641795ce3ca978, 0xfaf915300e517393, -2, 0x0),
    (0xb2cdab981f0f940b, 0xc857c77dc1df600f, -2, 0x0),
    (0xb43640f4d8a5761f, 0xf5f080a71c34b25d, -2, 0x0),
    (0xb59dd911aca1ec48, 0x1d2664cf09a0c1bf, -2, 0x0),
    (0xb70475515d0f1c5e, 0x4c98c6b8be17818d, -2, 0x0),
    (0xb86a1713c491aeaa, 0xd37ee2872a6f1cd6, -2, 0x0),
];

/// Coefficients of the polynomial approximating `log(1 + z)`, highest
/// degree first.
pub const P_2: [(u64, u64, i64, u64); 13] = [
    (0x99df88a0430813ca, 0xa1cffb6e966a70f6, -4, 0x0),
    (0xaaa02d43f696c3e4, 0x4dbe754667b6bc48, -4, 0x1),
    (0xba2e7a1eaf856174, 0x70e5c5a5ebbe0226, -4, 0x0),
    (0xccccccb9ec017492, 0xf934e28d924e76d4, -4, 0x1),
    (0xe38e38e3807cfa4b, 0xc976e6cbd22e203f, -4, 0x0),
    (0xfffffffffff924cc, 0x5b308e39fa7dfb5, -4, 0x1),
    (0x924924924924911d, 0x862bc3d33abb3649, -3, 0x0),
    (0xaaaaaaaaaaaaaaaa, 0x6637fd4b19743eec, -3, 0x1),
    (0xcccccccccccccccc, 0xccc2ca18b08fe343, -3, 0x0),
    (0xffffffffffffffff, 0xffffff2245823ae0, -3, 0x1),
    (0xaaaaaaaaaaaaaaaa, 0xaaaaaaaaa5c48b54, -2, 0x0),
    (0xffffffffffffffff, 0xffffffffffffebd8, -2, 0x1),
    (0x8000000000000000, 0x0, 0, 0x0),
];

} // verus!
