//! The fixed multipliers of the sliding-attack tables, one per square.
//!
//! Each was found once by random search for the relevant-blocker set of its
//! square. The tables are filled from them when a lookup is built, and the
//! fill checks each multiplier again.
use vstd::prelude::*;

verus! {

/// How many index bits a rook's table has.
pub const ROOK_INDEX_BITS: u8 = 16;

/// How many index bits a bishop's table has.
pub const BISHOP_INDEX_BITS: u8 = 14;

/// The rook's multiplier for each square, by square index.
pub const ROOK_MAGICS: [u64; 64] = [
    0x0810_c040_8182_8200,
    0x2400_4042_1020_0500,
    0x0053_0060_0084_2000,
    0x0002_0221_0800_5040,
    0x0804_1108_0001_2004,
    0x4840_2201_0000_4002,
    0x1002_1000_a200_0004,
    0x0600_c082_8840_0009,
    0x2400_0080_1002_0300,
    0x0010_1110_1121_0086,
    0x0185_3034_0d29_0110,
    0x0800_480a_0504_001a,
    0x0201_0200_4400_0031,
    0xc028_1006_200a_0040,
    0x04c1_2060_1000_10c0,
    0x0104_8210_8000_8220,
    0x2400_c027_4000_0540,
    0x0003_0490_2000_9008,
    0x0201_4008_2100_1a20,
    0x0811_0a00_2114_0420,
    0x0221_0880_220c_1010,
    0x0800_2001_0044_0015,
    0x6009_0401_3451_a010,
    0x1800_0800_8401_0042,
    0x0840_2002_0400_0200,
    0x2142_0209_0408_1100,
    0x0040_0480_0408_2000,
    0x0020_2024_0801_0002,
    0x4009_341a_0000_200a,
    0x48a0_2308_0008_9440,
    0x4080_0100_4420_000a,
    0x4400_8400_3280_4900,
    0x0082_5208_2a08_080c,
    0x8003_0040_0080_8204,
    0x0880_8100_6440_a080,
    0x0004_8100_0802_7007,
    0x0018_1140_0280_9020,
    0x0108_82c8_380b_4020,
    0x7001_0820_0015_00c1,
    0x8000_0090_0208_0811,
    0x0115_6400_3000_4100,
    0x8001_0301_0083_0040,
    0x0212_0000_8003_c040,
    0x0001_0050_0020_4004,
    0x0001_040c_0003_0848,
    0x8080_3402_4851_2409,
    0x5200_4101_0388_1110,
    0x0045_0001_0444_1390,
    0x1002_0800_1213_0c01,
    0x4000_0248_0034_0008,
    0x1001_5000_2000_4881,
    0x4000_0244_0008_0008,
    0x0008_0020_0012_0428,
    0x0002_0020_1004_2602,
    0x2040_0140_4848_a810,
    0x4011_0810_0444_0044,
    0x2000_4110_2204_024a,
    0x0108_a080_9908_088e,
    0x1028_0408_2000_0201,
    0x8b02_8500_0024_3481,
    0x0080_0120_2880_1002,
    0x00a4_0102_0210_200a,
    0x0810_0c02_004a_4081,
    0x0012_0020_2804_2211,
];

/// The bishop's multiplier for each square, by square index.
pub const BISHOP_MAGICS: [u64; 64] = [
    0x0000_200a_0000_8081,
    0x6000_0108_0202_0800,
    0x4020_4120_d06c_0081,
    0x0008_2040_4480_0901,
    0xa00c_0001_8800_4040,
    0x04b0_5002_000c_0010,
    0x2000_8908_0020_0204,
    0x0100_5008_5001_8c45,
    0x0000_0010_2002_0220,
    0x2a00_0450_0008_0302,
    0x1840_2a08_4100_6700,
    0x0010_2040_2020_2400,
    0x4300_0432_2912_8020,
    0x0000_00c0_1002_3000,
    0x90d3_0160_1020_1004,
    0x0000_0810_c102_2000,
    0x0000_0a14_1002_100b,
    0x2000_1001_0014_0040,
    0x4010_1000_4002_0848,
    0x1800_a218_0400_0401,
    0x0a10_0102_0082_0090,
    0x0410_8008_82a1_1008,
    0x0108_c00c_2002_240a,
    0x090c_0050_0010_1808,
    0x6800_0200_0884_0002,
    0x0059_4080_4020_c200,
    0x0000_1140_0008_4008,
    0x8020_0202_0004_4008,
    0x0190_0045_2808_400c,
    0x8020_1242_020b_2100,
    0x0004_0804_8000_8048,
    0x0601_8810_4000_8831,
    0x0002_8800_4029_1900,
    0x0200_0040_a100_c100,
    0x0090_0121_0002_0052,
    0x0000_092d_0400_0291,
    0x0004_0041_8097_0080,
    0x0003_0119_0100_0081,
    0x8000_4010_1901_0001,
    0x0010_00e0_0080_0100,
    0x0028_8001_2000_0030,
    0x0002_0904_0100_3848,
    0xa941_1004_060a_0500,
    0x2040_0030_0802_0408,
    0x0418_0086_00c8_9090,
    0x2c04_a900_01a0_0205,
    0x0008_4220_2082_6005,
    0x1000_0103_1080_1101,
    0x2000_4887_4002_8008,
    0x0000_0072_1000_4400,
    0x0101_0000_1802_0000,
    0x0100_0000_880c_0000,
    0x0421_4900_0480_1100,
    0x0118_0602_8248_2c05,
    0xe000_4006_0002_4000,
    0x4100_3100_0801_2258,
    0x0028_1100_2010_0900,
    0x0000_1002_6008_2400,
    0x4104_0000_302a_0008,
    0x80c0_1040_4010_0208,
    0x0900_0000_0020_1069,
    0x0225_40d1_2001_4042,
    0x0a11_0060_0040_1328,
    0x1180_1020_1082_b040,
];

} // verus!
