//! Bit patterns of the numbers that the rules of the library speak of.

use vstd::prelude::*;

verus! {

/// 0
pub const ZERO: u64 = 0x0000_0000_0000_0000;

/// -0
pub const MINUS_ZERO: u64 = 0x8000_0000_0000_0000;

/// 1
pub const ONE: u64 = 0x3ff0_0000_0000_0000;

/// 2
pub const TWO: u64 = 0x4000_0000_0000_0000;

/// 4
pub const FOUR: u64 = 0x4010_0000_0000_0000;

/// 5
pub const FIVE: u64 = 0x4014_0000_0000_0000;

/// 8
pub const EIGHT: u64 = 0x4020_0000_0000_0000;

/// 10
pub const TEN: u64 = 0x4024_0000_0000_0000;

/// 0.5
pub const HALF: u64 = 0x3fe0_0000_0000_0000;

/// 0.25
pub const QUARTER: u64 = 0x3fd0_0000_0000_0000;

/// 100
pub const HUNDRED: u64 = 0x4059_0000_0000_0000;

/// 2^-52, the gap between one and the next number
pub const EPSILON: u64 = 0x3cb0_0000_0000_0000;

/// 50
pub const FIFTY: u64 = 0x4049_0000_0000_0000;

/// 1,000,000
pub const MILLION: u64 = 0x412e_8480_0000_0000;

/// 100,000
pub const HUNDRED_THOUSAND: u64 = 0x40f8_6a00_0000_0000;

/// -100,000
pub const MINUS_HUNDRED_THOUSAND: u64 = 0xc0f8_6a00_0000_0000;

/// 10,000
pub const TEN_THOUSAND: u64 = 0x40c3_8800_0000_0000;

/// 50,000
pub const FIFTY_THOUSAND: u64 = 0x40e8_6a00_0000_0000;

/// 3,600
pub const SECONDS_PER_HOUR: u64 = 0x40ac_2000_0000_0000;

/// 0.001
pub const THOUSANDTH: u64 = 0x3f50_624d_d2f1_a9fc;

/// 0.01
pub const HUNDREDTH: u64 = 0x3f84_7ae1_47ae_147b;

/// 1.05
pub const MARGIN_RESERVE: u64 = 0x3ff0_cccc_cccc_cccd;

/// 10^12
pub const TRILLION: u64 = 0x426d_1a94_a200_0000;

/// 10^-12
pub const TRILLIONTH: u64 = 0x3d71_9799_812d_ea11;

/// -10^-8
pub const MINUS_HUNDRED_MILLIONTH: u64 = 0xbe45_798e_e230_8c3a;

/// 0.0005
pub const BINANCE_FEE: u64 = 0x3f40_624d_d2f1_a9fc;

/// 0.00055
pub const BYBIT_FEE: u64 = 0x3f42_05bc_01a3_6e2f;

/// 8760
pub const YEAR_HOURS: u64 = 0x40c1_1c00_0000_0000;

/// 6
pub const SIX: u64 = 0x4018_0000_0000_0000;

/// 0.005
pub const HALF_PERCENT: u64 = 0x3f74_7ae1_47ae_147b;

/// 3600000
pub const MILLIS_PER_HOUR: u64 = 0x414b_7740_0000_0000;

/// 480
pub const EIGHT_HOURS_IN_MINUTES: u64 = 0x407e_0000_0000_0000;

/// 60
pub const SIXTY: u64 = 0x404e_0000_0000_0000;

/// 24
pub const TWENTY_FOUR: u64 = 0x4038_0000_0000_0000;

/// 5,000
pub const FIVE_THOUSAND: u64 = 0x40b3_8800_0000_0000;

/// 30
pub const THIRTY: u64 = 0x403e_0000_0000_0000;

/// 3
pub const THREE: u64 = 0x4008_0000_0000_0000;

/// 0.002
pub const TWO_THOUSANDTHS: u64 = 0x3f60_624d_d2f1_a9fc;

/// -0.02
pub const MINUS_TWO_HUNDREDTHS: u64 = 0xbf94_7ae1_47ae_147b;

/// 0.00000001
pub const HUNDRED_MILLIONTH: u64 = 0x3e45_798e_e230_8c3a;

/// 1,000
pub const THOUSAND: u64 = 0x408f_4000_0000_0000;

/// 1,000,000,000
pub const BILLION: u64 = 0x41cd_cd65_0000_0000;

} // verus!
