//! The parameters of the 40 versions of the QR format.

use vstd::prelude::*;

verus! {

pub const QUIRC_MAX_VERSION: usize = 40;

pub const QUIRC_MAX_ALIGNMENT: usize = 7;

/// Total number of codewords of each version; index 0 is unused.
pub const VERSION_DATA_BYTES: [u32; 41] = [
    0, 26, 44, 70, 100, 134, 172, 196,
    242, 292, 346, 404, 466, 532, 581, 655,
    733, 815, 901, 991, 1085, 1156, 1258, 1364,
    1474, 1588, 1706, 1828, 1921, 2051, 2185, 2323,
    2465, 2611, 2761, 2876, 3034, 3196, 3362, 3532,
    3706,
];

/// Centre coordinates of the alignment patterns of each version, ended by a zero.
pub const VERSION_APAT: [[u32; 7]; 41] = [
    [0, 0, 0, 0, 0, 0, 0],
    [0, 0, 0, 0, 0, 0, 0],
    [6, 18, 0, 0, 0, 0, 0],
    [6, 22, 0, 0, 0, 0, 0],
    [6, 26, 0, 0, 0, 0, 0],
    [6, 30, 0, 0, 0, 0, 0],
    [6, 34, 0, 0, 0, 0, 0],
    [6, 22, 38, 0, 0, 0, 0],
    [6, 24, 42, 0, 0, 0, 0],
    [6, 26, 46, 0, 0, 0, 0],
    [6, 28, 50, 0, 0, 0, 0],
    [6, 30, 54, 0, 0, 0, 0],
    [6, 32, 58, 0, 0, 0, 0],
    [6, 34, 62, 0, 0, 0, 0],
    [6, 26, 46, 66, 0, 0, 0],
    [6, 26, 48, 70, 0, 0, 0],
    [6, 26, 50, 74, 0, 0, 0],
    [6, 30, 54, 78, 0, 0, 0],
    [6, 30, 56, 82, 0, 0, 0],
    [6, 30, 58, 86, 0, 0, 0],
    [6, 34, 62, 90, 0, 0, 0],
    [6, 28, 50, 72, 92, 0, 0],
    [6, 26, 50, 74, 98, 0, 0],
    [6, 30, 54, 78, 102, 0, 0],
    [6, 28, 54, 80, 106, 0, 0],
    [6, 32, 58, 84, 110, 0, 0],
    [6, 30, 58, 86, 114, 0, 0],
    [6, 34, 62, 90, 118, 0, 0],
    [6, 26, 50, 74, 98, 122, 0],
    [6, 30, 54, 78, 102, 126, 0],
    [6, 26, 52, 78, 104, 130, 0],
    [6, 30, 56, 82, 108, 134, 0],
    [6, 34, 60, 86, 112, 138, 0],
    [6, 30, 58, 86, 114, 142, 0],
    [6, 34, 62, 90, 118, 146, 0],
    [6, 30, 54, 78, 102, 126, 150],
    [6, 24, 50, 76, 102, 128, 154],
    [6, 28, 54, 80, 106, 132, 158],
    [6, 32, 58, 84, 110, 136, 162],
    [6, 26, 54, 82, 110, 138, 166],
    [6, 30, 58, 86, 114, 142, 170],
];

/// Block parameters of each version at each of the four error-correction levels:
/// the size of a small block, its number of data words, and the number of small blocks.
pub const VERSION_ECC: [[[u32; 3]; 4]; 41] = [
    [[0, 0, 0], [0, 0, 0], [0, 0, 0], [0, 0, 0]],
    [[26, 16, 1], [26, 19, 1], [26, 9, 1], [26, 13, 1]],
    [[44, 28, 1], [44, 34, 1], [44, 16, 1], [44, 22, 1]],
    [[70, 44, 1], [70, 55, 1], [35, 13, 2], [35, 17, 2]],
    [[50, 32, 2], [100, 80, 1], [25, 9, 4], [50, 24, 2]],
    [[67, 43, 2], [134, 108, 1], [33, 11, 2], [33, 15, 2]],
    [[43, 27, 4], [86, 68, 2], [43, 15, 4], [43, 19, 4]],
    [[49, 31, 4], [98, 78, 2], [39, 13, 4], [32, 14, 2]],
    [[60, 38, 2], [121, 97, 2], [40, 14, 4], [40, 18, 4]],
    [[58, 36, 3], [146, 116, 2], [36, 12, 4], [36, 16, 4]],
    [[69, 43, 4], [86, 68, 2], [43, 15, 6], [43, 19, 6]],
    [[80, 50, 1], [101, 81, 4], [36, 12, 3], [50, 22, 4]],
    [[58, 36, 6], [116, 92, 2], [42, 14, 7], [46, 20, 4]],
    [[59, 37, 8], [133, 107, 4], [33, 11, 12], [44, 20, 8]],
    [[64, 40, 4], [145, 115, 3], [36, 12, 11], [36, 16, 11]],
    [[65, 41, 5], [109, 87, 5], [36, 12, 11], [54, 24, 5]],
    [[73, 45, 7], [122, 98, 5], [45, 15, 3], [43, 19, 15]],
    [[74, 46, 10], [135, 107, 1], [42, 14, 2], [50, 22, 1]],
    [[69, 43, 9], [150, 120, 5], [42, 14, 2], [50, 22, 17]],
    [[70, 44, 3], [141, 113, 3], [39, 13, 9], [47, 21, 17]],
    [[67, 41, 3], [135, 107, 3], [43, 15, 15], [54, 24, 15]],
    [[68, 42, 17], [144, 116, 4], [46, 16, 19], [50, 22, 17]],
    [[74, 46, 17], [139, 111, 2], [37, 13, 34], [54, 24, 7]],
    [[75, 47, 4], [151, 121, 4], [45, 15, 16], [54, 24, 11]],
    [[73, 45, 6], [147, 117, 6], [46, 16, 30], [54, 24, 11]],
    [[75, 47, 8], [132, 106, 8], [45, 15, 22], [54, 24, 7]],
    [[74, 46, 19], [142, 114, 10], [46, 16, 33], [50, 22, 28]],
    [[73, 45, 22], [152, 122, 8], [45, 15, 12], [53, 23, 8]],
    [[73, 45, 3], [147, 117, 3], [45, 15, 11], [54, 24, 4]],
    [[73, 45, 21], [146, 116, 7], [45, 15, 19], [53, 23, 1]],
    [[75, 47, 19], [145, 115, 5], [45, 15, 23], [54, 24, 15]],
    [[74, 46, 2], [145, 115, 13], [45, 15, 23], [54, 24, 42]],
    [[74, 46, 10], [145, 115, 17], [45, 15, 19], [54, 24, 10]],
    [[74, 46, 14], [145, 115, 17], [45, 15, 11], [54, 24, 29]],
    [[74, 46, 14], [145, 115, 13], [46, 16, 59], [54, 24, 44]],
    [[75, 47, 12], [151, 121, 12], [45, 15, 22], [54, 24, 39]],
    [[75, 47, 6], [151, 121, 6], [45, 15, 2], [54, 24, 46]],
    [[74, 46, 29], [152, 122, 17], [45, 15, 24], [54, 24, 49]],
    [[74, 46, 13], [152, 122, 4], [45, 15, 42], [54, 24, 48]],
    [[75, 47, 40], [147, 117, 20], [45, 15, 10], [54, 24, 43]],
    [[75, 47, 18], [148, 118, 19], [45, 15, 20], [54, 24, 34]],
];

/// The parameters of the Reed-Solomon blocks of one size.
#[derive(Copy, Clone, Debug, Hash, PartialEq, Eq, PartialOrd, Ord)]
pub struct QuircRsParams {
    /// The number of codewords in a block.
    pub bs: u32,
    /// The number of data words among them.
    pub dw: u32,
    /// The number of blocks of this size.
    pub ns: u32,
}

/// The parameters of one version.
#[derive(Copy, Clone, Debug, Hash, PartialEq, Eq, PartialOrd, Ord)]
pub struct QuircVersionInfo {
    pub data_bytes: u32,
    pub apat: [u32; QUIRC_MAX_ALIGNMENT],
    pub ecc: [QuircRsParams; 4],
}

/// The block parameters of `version` at error-correction level `level`.
pub open spec fn spec_rs_params(version: int, level: int) -> QuircRsParams {
    QuircRsParams {
        bs: VERSION_ECC[version][level][0],
        dw: VERSION_ECC[version][level][1],
        ns: VERSION_ECC[version][level][2],
    }
}

/// What the decoder relies on in a set of block parameters: the blocks are
/// made of data words followed by at least one and at most 30 check words,
/// and `total` codewords hold the small blocks with room to spare only for
/// whole blocks of one word more.
pub open spec fn rs_params_fit(params: QuircRsParams, total: int) -> bool {
    &&& 0 < params.dw < params.bs <= 152
    &&& params.bs - params.dw <= 30
    &&& 0 < params.ns
    &&& params.bs * params.ns <= total <= 3706
}

/// Looks up the block parameters of a version and level.
pub fn rs_params(version: usize, level: usize) -> (params: QuircRsParams)
    requires
        version <= QUIRC_MAX_VERSION,
        level < 4,
    ensures
        params == spec_rs_params(version as int, level as int),
{
    let row = VERSION_ECC[version][level];
    QuircRsParams { bs: row[0], dw: row[1], ns: row[2] }
}

/// Looks up the parameters of a version. Index 0 gives the empty entry.
pub fn version_info(version: usize) -> (info: QuircVersionInfo)
    requires
        version <= QUIRC_MAX_VERSION,
    ensures
        info.data_bytes == VERSION_DATA_BYTES[version as int],
        info.apat == VERSION_APAT[version as int],
        forall|level: int| 0 <= level < 4 ==> info.ecc[level] == spec_rs_params(version as int, level),
{
    QuircVersionInfo {
        data_bytes: VERSION_DATA_BYTES[version],
        apat: VERSION_APAT[version],
        ecc: [
            rs_params(version, 0),
            rs_params(version, 1),
            rs_params(version, 2),
            rs_params(version, 3),
        ],
    }
}

/// Every entry of the table fits the number of codewords of its version.
pub proof fn lemma_rs_params_fit(version: int, level: int)
    by (nonlinear_arith)
    requires
        1 <= version <= QUIRC_MAX_VERSION,
        0 <= level < 4,
    ensures
        rs_params_fit(spec_rs_params(version, level), VERSION_DATA_BYTES[version] as int),
{
}

} // verus!
