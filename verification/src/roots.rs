//! The powers of the field's two distinguished elements that the evaluation
//! domains are built from, with the arithmetic that confirms them.

use vstd::prelude::*;
use vstd::arithmetic::div_mod::lemma_fundamental_div_mod_converse;
use vstd::arithmetic::power2::{lemma_pow2_unfold, lemma2_to64, pow2};
use crate::field::{generator_value, limbs_value, modulus, mul_mod, pow_mod, root_of_unity_value};
use crate::ring::{lemma_pow_mod_add, lemma_pow_mod_one};

verus! {


/// The root of unity of order `2^32`, squared `k` times (`k <= 32`).
pub open spec fn root_power(k: nat) -> nat {
    if k == 0 {
        limbs_value(
            0x3829_971f_439f_0d2b,
            0xb636_8350_8c22_80b9,
            0xd09b_6819_22c8_13b4,
            0x16a2_a19e_dfe8_1f20,
        )
    } else if k == 1 {
        limbs_value(
            0x63e7_cb49_06ff_c93f,
            0xf070_bb00_e28a_193d,
            0xad17_15b0_2e57_13b5,
            0x4b53_7149_5990_693f,
        )
    } else if k == 2 {
        limbs_value(
            0x6943_41f6_08c9_dd56,
            0xed3a_181f_abb3_0adc,
            0x1339_a815_da8b_398f,
            0x2c6d_4e45_1165_7e1e,
        )
    } else if k == 3 {
        limbs_value(
            0x4746_5035_9d8e_211b,
            0x84d3_7b82_6214_abc6,
            0x8da4_0c1e_f2bb_4598,
            0x0c83_ea77_44bf_1bee,
        )
    } else if k == 4 {
        limbs_value(
            0xd7b6_8883_0a4f_2089,
            0x6558_e9e3_f6ac_7b41,
            0x99e2_76b5_7190_5a7d,
            0x52dd_465e_2f09_4256,
        )
    } else if k == 5 {
        limbs_value(
            0xe2d0_a786_9f03_19ed,
            0xb94f_1101_b1d7_a628,
            0xece8_ea22_4f31_d25d,
            0x2339_7a93_00f8_f98b,
        )
    } else if k == 6 {
        limbs_value(
            0x531a_11a0_d2d7_5182,
            0x02c8_1184_0286_7ddc,
            0x1161_68bf_fbed_c11d,
            0x0a0a_77a3_b198_0c0d,
        )
    } else if k == 7 {
        limbs_value(
            0xce32_ef84_4e11_a51e,
            0xc0ba_12bb_3da6_4ca5,
            0x0454_dc1e_dc61_a1a3,
            0x019f_e632_fd32_8739,
        )
    } else if k == 8 {
        limbs_value(
            0x92cf_4deb_77bd_779c,
            0x72cf_6a80_29b7_d7bc,
            0x6e0b_cd91_ee76_2730,
            0x291c_f6d6_8823_e687,
        )
    } else if k == 9 {
        limbs_value(
            0x5616_c57d_e0ec_9eae,
            0xc631_ffb2_585a_72db,
            0x5121_af06_a3b5_1e3c,
            0x7356_0252_aa06_55b2,
        )
    } else if k == 10 {
        limbs_value(
            0xc6e7_a6ff_b08e_3363,
            0xe08f_ec7c_8638_9bee,
            0xf2d3_8f10_fbb8_d1bb,
            0x0abe_6a5e_5abc_aa32,
        )
    } else if k == 11 {
        limbs_value(
            0xcd39_7912_2d3e_a03a,
            0x46b3_105f_04db_5844,
            0xc70d_0874_b069_1d4e,
            0x47c8_b581_7018_af4f,
        )
    } else if k == 12 {
        limbs_value(
            0xfece_7e0e_3989_8d4b,
            0x2f69_e02d_265e_09d9,
            0xa57a_6e07_cb98_de4a,
            0x03e1_c54b_cb94_7035,
        )
    } else if k == 13 {
        limbs_value(
            0x194e_8c62_ecb3_8d9d,
            0xad8e_16e8_4419_c750,
            0xdf62_5e80_d0ad_ef90,
            0x520e_587a_724a_6955,
        )
    } else if k == 14 {
        limbs_value(
            0x6f42_1a7d_8ef6_74fb,
            0xbb97_a3bf_30ce_40fd,
            0x652f_717a_e1c3_4bb0,
            0x2d30_56a5_3079_4f01,
        )
    } else if k == 15 {
        limbs_value(
            0x0869_2405_f3b7_0f10,
            0xcd7f_2bd6_d071_1b7d,
            0x473a_2eef_772c_33d6,
            0x2242_6233_2d8a_cbf4,
        )
    } else if k == 16 {
        limbs_value(
            0xd711_8f85_cd96_b8ad,
            0x67a6_65ae_1fca_dc91,
            0x88f3_9a78_f1ae_b578,
            0x2155_379d_1218_0caa,
        )
    } else if k == 17 {
        limbs_value(
            0xfbd0_47e1_1279_bb6e,
            0xc8d5_f51d_b3f3_2699,
            0x4834_0541_7a0c_be39,
            0x3291_357e_e558_b50d,
        )
    } else if k == 18 {
        limbs_value(
            0x034d_2ff2_2a5a_d9e1,
            0xae46_22f6_a915_2435,
            0xdc86_b01c_0d47_7fa6,
            0x5662_4634_b500_a166,
        )
    } else if k == 19 {
        limbs_value(
            0x6fdd_00bf_c78c_8967,
            0x146b_58bc_4349_06ac,
            0x2ccd_dea2_972e_89ed,
            0x485d_5127_37b1_da3d,
        )
    } else if k == 20 {
        limbs_value(
            0xe206_da11_a5d3_6306,
            0x0ad1_347b_378f_bf96,
            0xfc3e_8acf_e0f8_245f,
            0x564c_0a11_a0f7_04f4,
        )
    } else if k == 21 {
        limbs_value(
            0x4a83_8b5d_59cd_79e5,
            0x55ea_6811_be9c_622d,
            0x09f1_ca61_0a08_f166,
            0x6d03_1f1b_5c49_c834,
        )
    } else if k == 22 {
        limbs_value(
            0x3c28_d666_a5c2_d854,
            0xea43_7f96_26fc_085e,
            0x8f4d_e02c_0f77_6af3,
            0x325d_b5c3_debf_77a1,
        )
    } else if k == 23 {
        limbs_value(
            0x4541_b8ff_2ee0_434e,
            0xd697_168a_3a60_00fe,
            0x39fe_ec24_0d80_689f,
            0x0951_6652_5526_a654,
        )
    } else if k == 24 {
        limbs_value(
            0x4935_bd2f_817f_694b,
            0x0a08_65a8_99e8_deff,
            0x6b36_8121_ac0c_f4ad,
            0x4f9b_4098_e2e9_f12e,
        )
    } else if k == 25 {
        limbs_value(
            0x5130_c2c1_6601_25be,
            0x98d0_caac_87f5_713c,
            0xb7c6_8b4d_7fdd_60d0,
            0x6898_1114_1358_8742,
        )
    } else if k == 26 {
        limbs_value(
            0x8140_d032_f0a9_ee53,
            0x2d96_7f4b_e2f9_5155,
            0x14a1_e271_64d8_fdbd,
            0x45af_6345_ec05_5e4d,
        )
    } else if k == 27 {
        limbs_value(
            0x360c_6099_7369_df4e,
            0xbf6e_88fb_4c38_fb8a,
            0xb4bc_d40e_22f5_5448,
            0x50e0_903a_1579_88ba,
        )
    } else if k == 28 {
        limbs_value(
            0x53ea_61d8_7742_bcce,
            0x17be_b312_f20b_6f76,
            0xdd1c_0af8_34ce_c32c,
            0x20b1_ce91_4026_7af9,
        )
    } else if k == 29 {
        limbs_value(
            0x7228_fd33_9774_3f7a,
            0xb38b_21c2_8713_b700,
            0x8c06_25cd_70d7_7ce2,
            0x3457_66f6_03fa_66e7,
        )
    } else if k == 30 {
        limbs_value(
            0x0001_0000_0000_0000,
            0xec03_0002_7603_0000,
            0x8d51_ccce_7603_04d0,
            0x0000_0000_0000_0000,
        )
    } else if k == 31 {
        limbs_value(
            0xffff_ffff_0000_0000,
            0x53bd_a402_fffe_5bfe,
            0x3339_d808_09a1_d805,
            0x73ed_a753_299d_7d48,
        )
    } else {
        limbs_value(
            0x0000_0000_0000_0001,
            0x0000_0000_0000_0000,
            0x0000_0000_0000_0000,
            0x0000_0000_0000_0000,
        )
    }
}

/// The multiplicative generator, squared `k` times (`k <= 32`).
pub open spec fn generator_power(k: nat) -> nat {
    if k == 0 {
        limbs_value(
            0x0000_0000_0000_0007,
            0x0000_0000_0000_0000,
            0x0000_0000_0000_0000,
            0x0000_0000_0000_0000,
        )
    } else if k == 1 {
        limbs_value(
            0x0000_0000_0000_0031,
            0x0000_0000_0000_0000,
            0x0000_0000_0000_0000,
            0x0000_0000_0000_0000,
        )
    } else if k == 2 {
        limbs_value(
            0x0000_0000_0000_0961,
            0x0000_0000_0000_0000,
            0x0000_0000_0000_0000,
            0x0000_0000_0000_0000,
        )
    } else if k == 3 {
        limbs_value(
            0x0000_0000_0057_f6c1,
            0x0000_0000_0000_0000,
            0x0000_0000_0000_0000,
            0x0000_0000_0000_0000,
        )
    } else if k == 4 {
        limbs_value(
            0x0000_1e39_a505_7d81,
            0x0000_0000_0000_0000,
            0x0000_0000_0000_0000,
            0x0000_0000_0000_0000,
        )
    } else if k == 5 {
        limbs_value(
            0x303c_3358_6e91_3b01,
            0x0000_0000_0391_8fa8,
            0x0000_0000_0000_0000,
            0x0000_0000_0000_0000,
        )
    } else if k == 6 {
        limbs_value(
            0x1994_17c8_c0bb_7601,
            0xd63b_78e7_80e1_341e,
            0x000c_bc21_fe45_61c8,
            0x0000_0000_0000_0000,
        )
    } else if k == 7 {
        limbs_value(
            0x626b_83cf_2f1e_7765,
            0x6019_10de_06fe_2947,
            0x628a_4be1_e35a_32d3,
            0x3f65_8b76_88be_cbdd,
        )
    } else if k == 8 {
        limbs_value(
            0x17cf_f0cd_340c_8e6d,
            0x905f_b69f_e4f4_b577,
            0x2f98_a063_2d8c_6ed8,
            0x04a7_89ea_4fdc_7ccf,
        )
    } else if k == 9 {
        limbs_value(
            0x906c_3a69_79f6_c0d9,
            0x0694_89ff_208b_436e,
            0x2c1e_2a75_d7f3_456d,
            0x4d1e_5e8c_9348_ebdf,
        )
    } else if k == 10 {
        limbs_value(
            0x8427_4f9b_513c_3705,
            0x5d58_71f4_9b77_117b,
            0xd8be_0b10_e0eb_662e,
            0x4580_2caf_41db_d58d,
        )
    } else if k == 11 {
        limbs_value(
            0x7faf_5a14_caca_24d4,
            0xa5a2_10ca_e66d_3f76,
            0x5b5a_bad0_4922_d8e2,
            0x0964_c346_6f71_8721,
        )
    } else if k == 12 {
        limbs_value(
            0x3683_decc_3f41_b173,
            0xabb0_d6e6_b743_db25,
            0x812b_4144_8426_fe8a,
            0x5238_ba78_5063_e217,
        )
    } else if k == 13 {
        limbs_value(
            0x6e33_d587_cba2_9edd,
            0xfe02_2d9b_35f1_cf68,
            0x3c2e_a046_3f78_127a,
            0x4a5c_b618_4808_4c35,
        )
    } else if k == 14 {
        limbs_value(
            0xbd74_b663_1311_b63e,
            0x254f_cc85_2888_5b5e,
            0x745d_7b33_84d5_7091,
            0x2aa2_c674_5539_c412,
        )
    } else if k == 15 {
        limbs_value(
            0x2931_7b82_b337_9c2e,
            0xc92e_ca77_07b4_b62d,
            0xba6e_492f_b897_934e,
            0x6804_d24a_b62a_a136,
        )
    } else if k == 16 {
        limbs_value(
            0xbaf3_b58a_7efb_134f,
            0x7b74_9f34_44a3_f53e,
            0x06c6_53a3_a30d_c6c4,
            0x0eda_5c05_9add_22bd,
        )
    } else if k == 17 {
        limbs_value(
            0x2030_e0f4_7b87_2b6d,
            0x9581_c3e3_6607_b671,
            0xd070_6249_706d_95c7,
            0x30d6_04f2_13d8_78f7,
        )
    } else if k == 18 {
        limbs_value(
            0xfd24_21c3_4f25_f9da,
            0x7769_11bc_cac7_7483,
            0x4c7c_790f_8374_a0d9,
            0x3eb4_ec72_f1ee_a6bd,
        )
    } else if k == 19 {
        limbs_value(
            0xc525_b6ab_4565_e752,
            0x9ae1_ff0e_a033_4c18,
            0xd631_f40a_cb99_a21f,
            0x0c2a_9a7f_aa1a_1a2e,
        )
    } else if k == 20 {
        limbs_value(
            0x121b_51c9_27ea_a4dc,
            0x0bad_4d8f_8138_59f6,
            0xe85d_9e94_3d57_d0c2,
            0x628f_c184_374a_1219,
        )
    } else if k == 21 {
        limbs_value(
            0x6b76_0662_8c87_fe13,
            0xa442_8baa_b83f_69a5,
            0xe7e5_42d1_49e5_63e7,
            0x1a35_c7c2_1518_8748,
        )
    } else if k == 22 {
        limbs_value(
            0x414e_9afb_e9fe_8391,
            0x297f_b210_a477_7bce,
            0x084a_601d_c0ff_1294,
            0x720a_e8ff_3738_e762,
        )
    } else if k == 23 {
        limbs_value(
            0x4851_2d6f_616d_5433,
            0x82a6_0243_cab7_35b6,
            0x4e3c_072e_4a91_6134,
            0x5833_5464_ad9e_9cae,
        )
    } else if k == 24 {
        limbs_value(
            0x71aa_dd3d_0c03_5396,
            0x64d9_4839_da7a_1825,
            0xa1fa_df67_d487_e6d9,
            0x4292_65f1_d3e7_fa86,
        )
    } else if k == 25 {
        limbs_value(
            0x10cd_f80b_4199_e4d7,
            0xaeff_cf6d_731d_38a4,
            0xd032_2a35_6af7_bf83,
            0x729a_d34c_57d4_ef07,
        )
    } else if k == 26 {
        limbs_value(
            0xd733_9e32_176a_1bd8,
            0xdc98_63ce_38fa_f65a,
            0x8fff_ef1a_fca5_eaf4,
            0x2be1_2a4e_b7fd_d244,
        )
    } else if k == 27 {
        limbs_value(
            0xade9_8686_3f8b_7153,
            0xafe4_f768_95ae_53bf,
            0x6c57_6a79_2ed0_dd3c,
            0x2a98_b3de_1e8d_0539,
        )
    } else if k == 28 {
        limbs_value(
            0xdcf1_5f2f_4e70_6efe,
            0xb70b_4a5e_a3e0_c94c,
            0xb382_9a11_5bd0_634c,
            0x689f_6580_8ca0_9717,
        )
    } else if k == 29 {
        limbs_value(
            0x9eb1_6e5f_4ed5_cd46,
            0x70bc_cb15_393b_cf7b,
            0x3691_9a42_327a_03e7,
            0x6426_1cc2_22fd_f919,
        )
    } else if k == 30 {
        limbs_value(
            0x8baf_83d6_aca8_566e,
            0x54a8_15fe_a49a_9a0a,
            0x050f_ce0e_2c4d_5f11,
            0x2735_9bd3_49c3_f009,
        )
    } else if k == 31 {
        limbs_value(
            0xbb18_8d53_056f_d0d8,
            0xdeff_7dc6_ff0f_95c4,
            0x06d1_1378_95c1_d407,
            0x46e0_2401_a919_4f31,
        )
    } else {
        limbs_value(
            0x6c08_3479_5901_89d7,
            0xf650_2437_c6a0_9c00,
            0x43ca_b354_fabb_0062,
            0x0863_4d0a_a021_aaf8,
        )
    }
}

/// The quotient of `root_power(k)^2` by the modulus.
spec fn root_quotient(k: nat) -> nat {
    if k == 0 {
        limbs_value(
            0x8ee0_5ed0_d717_9bfa,
            0xc0ac_8ff8_fe9b_35ff,
            0x2ec4_69fc_af1a_d016,
            0x046b_6a53_1156_833f,
        )
    } else if k == 1 {
        limbs_value(
            0x9c96_8b24_74ec_202b,
            0xa73e_8861_4457_bfab,
            0x89fb_5096_4a73_30fc,
            0x30f1_ab15_95c2_d2f9,
        )
    } else if k == 2 {
        limbs_value(
            0x9941_71de_12db_77c9,
            0xdeca_ddee_100e_33d6,
            0xbb20_c8e0_46d2_b3e6,
            0x1106_9183_3f37_afde,
        )
    } else if k == 3 {
        limbs_value(
            0x817c_887e_d1ec_d850,
            0x87e0_a962_13c5_fb1b,
            0x3021_1f45_b03e_ac73,
            0x0159_e2bf_6a53_70d1,
        )
    } else if k == 4 {
        limbs_value(
            0x4b9f_eb13_2dad_6f64,
            0x7639_4d9d_1a2e_ff10,
            0x5a5e_6c92_2e12_eda9,
            0x3b3b_06a2_8b2a_02bf,
        )
    } else if k == 5 {
        limbs_value(
            0x5933_f6a0_3156_d3e7,
            0x5f63_d733_517d_87cc,
            0x4521_51d9_0394_c5fe,
            0x0ab3_f011_9626_603c,
        )
    } else if k == 6 {
        limbs_value(
            0xdc12_0eb4_fc3d_e0e6,
            0x4f85_d648_0201_3a04,
            0xdeb5_ceea_0db4_ad43,
            0x00de_a2b6_fae4_c13a,
        )
    } else if k == 7 {
        limbs_value(
            0xe9f5_f6c2_28be_37e8,
            0xe8d1_0daa_e5d0_d25f,
            0x3e98_2d83_2599_3408,
            0x0005_d40f_a3da_1bdb,
        )
    } else if k == 8 {
        limbs_value(
            0x0b4e_24b8_fb4d_c862,
            0x0c64_75e7_1051_36d2,
            0xa6eb_eda0_253d_2477,
            0x0e94_9a21_ffec_edd8,
        )
    } else if k == 9 {
        limbs_value(
            0xc287_1632_c29d_0ae1,
            0x5593_5a67_8663_bc32,
            0x742d_2d81_ca32_1502,
            0x72bf_23af_7a58_9fbb,
        )
    } else if k == 10 {
        limbs_value(
            0xb209_17db_fee5_f80f,
            0x7e93_1ac7_e47a_f231,
            0xf1b5_01ec_83e5_93c8,
            0x00fe_e5fb_5d0e_a236,
        )
    } else if k == 11 {
        limbs_value(
            0x0220_f199_2ad6_ffd9,
            0x87b4_57e7_0cd3_8cf8,
            0x3f53_fcbd_ea18_424e,
            0x2c73_0c31_40a3_7a7f,
        )
    } else if k == 12 {
        limbs_value(
            0xe003_6d01_018e_265c,
            0xab19_d423_69bf_1a60,
            0x7288_868e_ee11_8eaa,
            0x0021_46e2_a0b8_e0de,
        )
    } else if k == 13 {
        limbs_value(
            0x3e8f_720d_40ed_dd4e,
            0x021e_83ce_e04f_46af,
            0xbb8b_08bf_05a9_7855,
            0x3a14_a5a3_be21_66a2,
        )
    } else if k == 14 {
        limbs_value(
            0x776b_cb2c_8821_5f09,
            0xe02b_c04b_ae10_b9fb,
            0x9259_d189_b881_bf07,
            0x119d_5585_e49a_ad5f,
        )
    } else if k == 15 {
        limbs_value(
            0x89a2_b8ec_1c2c_2853,
            0x0500_b811_d36d_5017,
            0x0997_f40f_c9e8_3eea,
            0x0a1f_d62a_66e5_0b75,
        )
    } else if k == 16 {
        limbs_value(
            0xb6ad_07dd_ef7b_697b,
            0x8d13_92b9_d3fc_dc8d,
            0x3c01_eaa5_5683_4299,
            0x0995_8e6f_2878_6057,
        )
    } else if k == 17 {
        limbs_value(
            0x4995_ad0b_04db_0963,
            0xd6ed_4421_1ce4_0930,
            0x8574_c66d_a309_cd89,
            0x160e_9ebe_700a_ee0e,
        )
    } else if k == 18 {
        limbs_value(
            0x565a_28b9_f816_ae5a,
            0xc5ab_df7d_b6a9_63f5,
            0xd19e_a62e_dd2f_1b3f,
            0x405e_6df9_2310_b5af,
        )
    } else if k == 19 {
        limbs_value(
            0x19a3_fcd0_0e94_046b,
            0xe1d4_245c_641a_3b84,
            0xdefb_d926_f073_f958,
            0x2d2b_d4ba_cd6e_3f84,
        )
    } else if k == 20 {
        limbs_value(
            0x2c4c_29df_c464_2a3f,
            0xc564_0c70_98f1_5d5c,
            0x3cf3_8f8e_2707_87fd,
            0x403d_4f41_dc6a_8cda,
        )
    } else if k == 21 {
        limbs_value(
            0x7068_5a2e_0709_6e85,
            0x236e_b141_0dc3_5729,
            0xe3be_c76b_2e66_7c1f,
            0x6682_3798_1ad0_7340,
        )
    } else if k == 22 {
        limbs_value(
            0xa881_715b_af3d_9842,
            0x542a_1f75_ba7e_56e4,
            0xe00e_ae02_d90a_05e7,
            0x15e1_c84c_3f26_c9b1,
        )
    } else if k == 23 {
        limbs_value(
            0x1d34_5753_60b2_8279,
            0x4bb1_9a28_a01c_9180,
            0x34f8_f275_64be_4b57,
            0x00bf_bb2e_f2ee_09fe,
        )
    } else if k == 24 {
        limbs_value(
            0xd157_c28a_d3b7_763b,
            0x110a_cbf3_88c9_e1c8,
            0xa61b_5f8d_4f77_795c,
            0x36aa_29c2_2b40_321b,
        )
    } else if k == 25 {
        limbs_value(
            0x5df5_850e_c862_8ab1,
            0xead1_6b7e_63ad_3a7f,
            0x83cc_d549_3c04_a498,
            0x5e5e_2b11_0231_c030,
        )
    } else if k == 26 {
        limbs_value(
            0x5565_3715_b40a_8f9b,
            0x4e6b_a9a6_ad46_48a2,
            0xcb35_f71d_e474_d145,
            0x29e3_58a6_0746_b7fb,
        )
    } else if k == 27 {
        limbs_value(
            0xa0f7_92c2_8d82_3ef6,
            0x56ac_bcf5_e768_9d06,
            0x77be_c076_9731_5a92,
            0x386c_80aa_eff1_7f52,
        )
    } else if k == 28 {
        limbs_value(
            0x27b3_cda3_d202_f64a,
            0x38ea_24eb_341e_34ae,
            0xc20e_b214_4254_5c86,
            0x0938_7c42_2d7c_efe2,
        )
    } else if k == 29 {
        limbs_value(
            0x77cf_0c6b_824d_4624,
            0x3e93_44a7_a37a_af2d,
            0x8454_e23d_c04a_af59,
            0x17a1_cdc0_48cd_b127,
        )
    } else if k == 30 {
        limbs_value(
            0x0000_0001_0000_0000,
            0xac45_a401_0001_a402,
            0x0000_0000_0000_0000,
            0x0000_0000_0000_0000,
        )
    } else {
        limbs_value(
            0xffff_fffe_ffff_ffff,
            0x53bd_a402_fffe_5bfe,
            0x3339_d808_09a1_d805,
            0x73ed_a753_299d_7d48,
        )
    }
}

/// The quotient of `generator_power(k)^2` by the modulus.
spec fn generator_quotient(k: nat) -> nat {
    if k == 0 {
        limbs_value(
            0x0000_0000_0000_0000,
            0x0000_0000_0000_0000,
            0x0000_0000_0000_0000,
            0x0000_0000_0000_0000,
        )
    } else if k == 1 {
        limbs_value(
            0x0000_0000_0000_0000,
            0x0000_0000_0000_0000,
            0x0000_0000_0000_0000,
            0x0000_0000_0000_0000,
        )
    } else if k == 2 {
        limbs_value(
            0x0000_0000_0000_0000,
            0x0000_0000_0000_0000,
            0x0000_0000_0000_0000,
            0x0000_0000_0000_0000,
        )
    } else if k == 3 {
        limbs_value(
            0x0000_0000_0000_0000,
            0x0000_0000_0000_0000,
            0x0000_0000_0000_0000,
            0x0000_0000_0000_0000,
        )
    } else if k == 4 {
        limbs_value(
            0x0000_0000_0000_0000,
            0x0000_0000_0000_0000,
            0x0000_0000_0000_0000,
            0x0000_0000_0000_0000,
        )
    } else if k == 5 {
        limbs_value(
            0x0000_0000_0000_0000,
            0x0000_0000_0000_0000,
            0x0000_0000_0000_0000,
            0x0000_0000_0000_0000,
        )
    } else if k == 6 {
        limbs_value(
            0x92af_3aa3_ecbc_749c,
            0x0000_0166_2158_ac10,
            0x0000_0000_0000_0000,
            0x0000_0000_0000_0000,
        )
    } else if k == 7 {
        limbs_value(
            0x8a0f_356c_154e_7f6c,
            0x7dbb_e8fb_2429_2c2e,
            0xb7f2_c4a4_c54f_73b3,
            0x22ab_4d2f_3b20_1280,
        )
    } else if k == 8 {
        limbs_value(
            0xc315_b432_777e_5990,
            0x2370_a0c6_5f89_69a3,
            0xebd6_f5a6_4977_a38f,
            0x002f_d6ea_70e7_0d8d,
        )
    } else if k == 9 {
        limbs_value(
            0x6bee_6777_0316_00ec,
            0x8a7a_3f7f_913e_4f43,
            0xfc8f_c919_710d_c26a,
            0x334d_2701_ade3_afa3,
        )
    } else if k == 10 {
        limbs_value(
            0x43de_8639_3561_0145,
            0x2b42_9dcb_8293_184a,
            0xacd9_9e97_94c9_b45b,
            0x29aa_a941_f4d2_7da9,
        )
    } else if k == 11 {
        limbs_value(
            0x620d_322d_749a_9e1d,
            0xc5ff_0959_7122_45c4,
            0x9cc1_2646_7844_24e5,
            0x00c2_db44_6d5f_34ba,
        )
    } else if k == 12 {
        limbs_value(
            0xe759_6ebe_65c3_9acc,
            0xd09d_53c0_ed8b_4c22,
            0x9987_1b29_1837_ad55,
            0x3a50_b4c0_05dc_a3c7,
        )
    } else if k == 13 {
        limbs_value(
            0x5bab_bc7d_dd37_d48b,
            0x6cad_43f2_3169_df70,
            0x9124_7ae3_4d73_0876,
            0x2fb3_15fd_3586_0d37,
        )
    } else if k == 14 {
        limbs_value(
            0xb1fd_dd8e_36c0_9ad6,
            0x162e_97c7_8f65_3858,
            0xbecf_6c1a_4c91_da74,
            0x0fae_359f_4ceb_c5fd,
        )
    } else if k == 15 {
        limbs_value(
            0x0cbe_f29f_5011_04f5,
            0xf5ab_3e14_9da3_8cc4,
            0x4122_07d7_f997_025a,
            0x5d55_335c_6287_5318,
        )
    } else if k == 16 {
        limbs_value(
            0xa99b_6a6c_26d7_a6f4,
            0x8a38_39d1_41af_4664,
            0x23f1_8535_a989_607e,
            0x01e7_2a70_fdcd_8e25,
        )
    } else if k == 17 {
        limbs_value(
            0x102e_63ad_432d_d28f,
            0xe331_11f9_714d_8f26,
            0xc9d5_65c8_3442_738e,
            0x1492_9af3_42ff_642e,
        )
    } else if k == 18 {
        limbs_value(
            0x4e5f_7b99_7377_e652,
            0x478f_0cde_498d_24df,
            0x1ce1_a30c_cd0f_a7ef,
            0x21eb_2da3_4864_5ae5,
        )
    } else if k == 19 {
        limbs_value(
            0x1142_d66d_63ce_7168,
            0x3fae_3b1b_bdb0_7bfb,
            0xa5a2_f114_f003_9f50,
            0x0146_dee5_5967_1dd8,
        )
    } else if k == 20 {
        limbs_value(
            0xc3c8_075f_47d2_9efd,
            0x2042_ad74_3a34_7386,
            0xde7b_c9c5_00a3_2824,
            0x53cb_e1a6_a96b_3ca5,
        )
    } else if k == 21 {
        limbs_value(
            0xf197_078a_d235_31d8,
            0xed6f_06a3_bcaa_385a,
            0xcbf8_d296_ae59_c793,
            0x05ed_014d_eb5b_e5d1,
        )
    } else if k == 22 {
        limbs_value(
            0x5338_f15b_e7ec_63ee,
            0x1e2d_de7e_4161_8e42,
            0x7200_f1cc_fba3_b1a8,
            0x7030_04e3_259e_a69e,
        )
    } else if k == 23 {
        limbs_value(
            0x0134_4c0f_691c_2e93,
            0xeb9d_a6b4_e4d3_e443,
            0x53cb_bcdf_9fe8_6023,
            0x431a_c9cc_79e7_f587,
        )
    } else if k == 24 {
        limbs_value(
            0xb615_e05e_df34_b70d,
            0x8a78_f936_52fa_55a5,
            0x7c1b_a5c2_66f2_0b13,
            0x263a_99b4_bac2_c4d4,
        )
    } else if k == 25 {
        limbs_value(
            0xd4af_afb9_6c23_90b9,
            0x8dfb_4acb_5fd9_2e3b,
            0x26a8_a7e7_4514_f829,
            0x714b_dd93_f4be_4174,
        )
    } else if k == 26 {
        limbs_value(
            0xfe78_0bc2_a25b_d4ed,
            0x320b_dbe7_8784_828f,
            0x8060_7fbd_2c96_3b27,
            0x109b_d194_a3e7_0b66,
        )
    } else if k == 27 {
        limbs_value(
            0xf864_075a_cddb_f1eb,
            0x5417_1ffd_7c9a_9bbd,
            0x6ecd_e4d3_f22a_2ddb,
            0x0fa6_cdce_0145_a848,
        )
    } else if k == 28 {
        limbs_value(
            0x0ac6_02a6_c789_76be,
            0x74db_4beb_9ab7_3824,
            0x26af_8f03_11ff_253d,
            0x5e6b_6576_0a22_06ce,
        )
    } else if k == 29 {
        limbs_value(
            0x44e6_d279_366c_d8b6,
            0x538f_7c0c_2ca3_16ac,
            0xf559_c7e7_7e48_fa20,
            0x5684_68a6_a1c8_5ea5,
        )
    } else if k == 30 {
        limbs_value(
            0xa1c1_6fd6_581e_466c,
            0xd267_e2bb_3ab8_add0,
            0x3379_6df7_01e2_b1cf,
            0x0d42_ee5a_755d_6867,
        )
    } else {
        limbs_value(
            0xdbd2_e2fe_dcae_2c69,
            0xcb72_484d_0fe6_e123,
            0xb65b_3b4c_7366_4237,
            0x2b54_da4a_658b_821b,
        )
    }
}

/// Each entry of `root_power` is the square of the one before it.
proof fn lemma_root_power_step(k: nat)
    requires
        k < 32,
    ensures
        mul_mod(root_power(k), root_power(k)) == root_power(k + 1),
{
    let x = root_power(k);
    let y = root_power(k + 1);
    let t = root_quotient(k);
    if k == 0 {
        assert(x * x == t * modulus() + y) by (nonlinear_arith)
            requires
                x == root_power(0),
                y == root_power(1),
                t == root_quotient(0),
        ;
    } else if k == 1 {
        assert(x * x == t * modulus() + y) by (nonlinear_arith)
            requires
                x == root_power(1),
                y == root_power(2),
                t == root_quotient(1),
        ;
    } else if k == 2 {
        assert(x * x == t * modulus() + y) by (nonlinear_arith)
            requires
                x == root_power(2),
                y == root_power(3),
                t == root_quotient(2),
        ;
    } else if k == 3 {
        assert(x * x == t * modulus() + y) by (nonlinear_arith)
            requires
                x == root_power(3),
                y == root_power(4),
                t == root_quotient(3),
        ;
    } else if k == 4 {
        assert(x * x == t * modulus() + y) by (nonlinear_arith)
            requires
                x == root_power(4),
                y == root_power(5),
                t == root_quotient(4),
        ;
    } else if k == 5 {
        assert(x * x == t * modulus() + y) by (nonlinear_arith)
            requires
                x == root_power(5),
                y == root_power(6),
                t == root_quotient(5),
        ;
    } else if k == 6 {
        assert(x * x == t * modulus() + y) by (nonlinear_arith)
            requires
                x == root_power(6),
                y == root_power(7),
                t == root_quotient(6),
        ;
    } else if k == 7 {
        assert(x * x == t * modulus() + y) by (nonlinear_arith)
            requires
                x == root_power(7),
                y == root_power(8),
                t == root_quotient(7),
        ;
    } else if k == 8 {
        assert(x * x == t * modulus() + y) by (nonlinear_arith)
            requires
                x == root_power(8),
                y == root_power(9),
                t == root_quotient(8),
        ;
    } else if k == 9 {
        assert(x * x == t * modulus() + y) by (nonlinear_arith)
            requires
                x == root_power(9),
                y == root_power(10),
                t == root_quotient(9),
        ;
    } else if k == 10 {
        assert(x * x == t * modulus() + y) by (nonlinear_arith)
            requires
                x == root_power(10),
                y == root_power(11),
                t == root_quotient(10),
        ;
    } else if k == 11 {
        assert(x * x == t * modulus() + y) by (nonlinear_arith)
            requires
                x == root_power(11),
                y == root_power(12),
                t == root_quotient(11),
        ;
    } else if k == 12 {
        assert(x * x == t * modulus() + y) by (nonlinear_arith)
            requires
                x == root_power(12),
                y == root_power(13),
                t == root_quotient(12),
        ;
    } else if k == 13 {
        assert(x * x == t * modulus() + y) by (nonlinear_arith)
            requires
                x == root_power(13),
                y == root_power(14),
                t == root_quotient(13),
        ;
    } else if k == 14 {
        assert(x * x == t * modulus() + y) by (nonlinear_arith)
            requires
                x == root_power(14),
                y == root_power(15),
                t == root_quotient(14),
        ;
    } else if k == 15 {
        assert(x * x == t * modulus() + y) by (nonlinear_arith)
            requires
                x == root_power(15),
                y == root_power(16),
                t == root_quotient(15),
        ;
    } else if k == 16 {
        assert(x * x == t * modulus() + y) by (nonlinear_arith)
            requires
                x == root_power(16),
                y == root_power(17),
                t == root_quotient(16),
        ;
    } else if k == 17 {
        assert(x * x == t * modulus() + y) by (nonlinear_arith)
            requires
                x == root_power(17),
                y == root_power(18),
                t == root_quotient(17),
        ;
    } else if k == 18 {
        assert(x * x == t * modulus() + y) by (nonlinear_arith)
            requires
                x == root_power(18),
                y == root_power(19),
                t == root_quotient(18),
        ;
    } else if k == 19 {
        assert(x * x == t * modulus() + y) by (nonlinear_arith)
            requires
                x == root_power(19),
                y == root_power(20),
                t == root_quotient(19),
        ;
    } else if k == 20 {
        assert(x * x == t * modulus() + y) by (nonlinear_arith)
            requires
                x == root_power(20),
                y == root_power(21),
                t == root_quotient(20),
        ;
    } else if k == 21 {
        assert(x * x == t * modulus() + y) by (nonlinear_arith)
            requires
                x == root_power(21),
                y == root_power(22),
                t == root_quotient(21),
        ;
    } else if k == 22 {
        assert(x * x == t * modulus() + y) by (nonlinear_arith)
            requires
                x == root_power(22),
                y == root_power(23),
                t == root_quotient(22),
        ;
    } else if k == 23 {
        assert(x * x == t * modulus() + y) by (nonlinear_arith)
            requires
                x == root_power(23),
                y == root_power(24),
                t == root_quotient(23),
        ;
    } else if k == 24 {
        assert(x * x == t * modulus() + y) by (nonlinear_arith)
            requires
                x == root_power(24),
                y == root_power(25),
                t == root_quotient(24),
        ;
    } else if k == 25 {
        assert(x * x == t * modulus() + y) by (nonlinear_arith)
            requires
                x == root_power(25),
                y == root_power(26),
                t == root_quotient(25),
        ;
    } else if k == 26 {
        assert(x * x == t * modulus() + y) by (nonlinear_arith)
            requires
                x == root_power(26),
                y == root_power(27),
                t == root_quotient(26),
        ;
    } else if k == 27 {
        assert(x * x == t * modulus() + y) by (nonlinear_arith)
            requires
                x == root_power(27),
                y == root_power(28),
                t == root_quotient(27),
        ;
    } else if k == 28 {
        assert(x * x == t * modulus() + y) by (nonlinear_arith)
            requires
                x == root_power(28),
                y == root_power(29),
                t == root_quotient(28),
        ;
    } else if k == 29 {
        assert(x * x == t * modulus() + y) by (nonlinear_arith)
            requires
                x == root_power(29),
                y == root_power(30),
                t == root_quotient(29),
        ;
    } else if k == 30 {
        assert(x * x == t * modulus() + y) by (nonlinear_arith)
            requires
                x == root_power(30),
                y == root_power(31),
                t == root_quotient(30),
        ;
    } else {
        assert(x * x == t * modulus() + y) by (nonlinear_arith)
            requires
                x == root_power(31),
                y == root_power(32),
                t == root_quotient(31),
        ;
    }
    lemma_fundamental_div_mod_converse((x * x) as int, modulus() as int, t as int, y as int);
}

/// Each entry of `generator_power` is the square of the one before it.
proof fn lemma_generator_power_step(k: nat)
    requires
        k < 32,
    ensures
        mul_mod(generator_power(k), generator_power(k)) == generator_power(k + 1),
{
    let x = generator_power(k);
    let y = generator_power(k + 1);
    let t = generator_quotient(k);
    if k == 0 {
        assert(x * x == t * modulus() + y) by (nonlinear_arith)
            requires
                x == generator_power(0),
                y == generator_power(1),
                t == generator_quotient(0),
        ;
    } else if k == 1 {
        assert(x * x == t * modulus() + y) by (nonlinear_arith)
            requires
                x == generator_power(1),
                y == generator_power(2),
                t == generator_quotient(1),
        ;
    } else if k == 2 {
        assert(x * x == t * modulus() + y) by (nonlinear_arith)
            requires
                x == generator_power(2),
                y == generator_power(3),
                t == generator_quotient(2),
        ;
    } else if k == 3 {
        assert(x * x == t * modulus() + y) by (nonlinear_arith)
            requires
                x == generator_power(3),
                y == generator_power(4),
                t == generator_quotient(3),
        ;
    } else if k == 4 {
        assert(x * x == t * modulus() + y) by (nonlinear_arith)
            requires
                x == generator_power(4),
                y == generator_power(5),
                t == generator_quotient(4),
        ;
    } else if k == 5 {
        assert(x * x == t * modulus() + y) by (nonlinear_arith)
            requires
                x == generator_power(5),
                y == generator_power(6),
                t == generator_quotient(5),
        ;
    } else if k == 6 {
        assert(x * x == t * modulus() + y) by (nonlinear_arith)
            requires
                x == generator_power(6),
                y == generator_power(7),
                t == generator_quotient(6),
        ;
    } else if k == 7 {
        assert(x * x == t * modulus() + y) by (nonlinear_arith)
            requires
                x == generator_power(7),
                y == generator_power(8),
                t == generator_quotient(7),
        ;
    } else if k == 8 {
        assert(x * x == t * modulus() + y) by (nonlinear_arith)
            requires
                x == generator_power(8),
                y == generator_power(9),
                t == generator_quotient(8),
        ;
    } else if k == 9 {
        assert(x * x == t * modulus() + y) by (nonlinear_arith)
            requires
                x == generator_power(9),
                y == generator_power(10),
                t == generator_quotient(9),
        ;
    } else if k == 10 {
        assert(x * x == t * modulus() + y) by (nonlinear_arith)
            requires
                x == generator_power(10),
                y == generator_power(11),
                t == generator_quotient(10),
        ;
    } else if k == 11 {
        assert(x * x == t * modulus() + y) by (nonlinear_arith)
            requires
                x == generator_power(11),
                y == generator_power(12),
                t == generator_quotient(11),
        ;
    } else if k == 12 {
        assert(x * x == t * modulus() + y) by (nonlinear_arith)
            requires
                x == generator_power(12),
                y == generator_power(13),
                t == generator_quotient(12),
        ;
    } else if k == 13 {
        assert(x * x == t * modulus() + y) by (nonlinear_arith)
            requires
                x == generator_power(13),
                y == generator_power(14),
                t == generator_quotient(13),
        ;
    } else if k == 14 {
        assert(x * x == t * modulus() + y) by (nonlinear_arith)
            requires
                x == generator_power(14),
                y == generator_power(15),
                t == generator_quotient(14),
        ;
    } else if k == 15 {
        assert(x * x == t * modulus() + y) by (nonlinear_arith)
            requires
                x == generator_power(15),
                y == generator_power(16),
                t == generator_quotient(15),
        ;
    } else if k == 16 {
        assert(x * x == t * modulus() + y) by (nonlinear_arith)
            requires
                x == generator_power(16),
                y == generator_power(17),
                t == generator_quotient(16),
        ;
    } else if k == 17 {
        assert(x * x == t * modulus() + y) by (nonlinear_arith)
            requires
                x == generator_power(17),
                y == generator_power(18),
                t == generator_quotient(17),
        ;
    } else if k == 18 {
        assert(x * x == t * modulus() + y) by (nonlinear_arith)
            requires
                x == generator_power(18),
                y == generator_power(19),
                t == generator_quotient(18),
        ;
    } else if k == 19 {
        assert(x * x == t * modulus() + y) by (nonlinear_arith)
            requires
                x == generator_power(19),
                y == generator_power(20),
                t == generator_quotient(19),
        ;
    } else if k == 20 {
        assert(x * x == t * modulus() + y) by (nonlinear_arith)
            requires
                x == generator_power(20),
                y == generator_power(21),
                t == generator_quotient(20),
        ;
    } else if k == 21 {
        assert(x * x == t * modulus() + y) by (nonlinear_arith)
            requires
                x == generator_power(21),
                y == generator_power(22),
                t == generator_quotient(21),
        ;
    } else if k == 22 {
        assert(x * x == t * modulus() + y) by (nonlinear_arith)
            requires
                x == generator_power(22),
                y == generator_power(23),
                t == generator_quotient(22),
        ;
    } else if k == 23 {
        assert(x * x == t * modulus() + y) by (nonlinear_arith)
            requires
                x == generator_power(23),
                y == generator_power(24),
                t == generator_quotient(23),
        ;
    } else if k == 24 {
        assert(x * x == t * modulus() + y) by (nonlinear_arith)
            requires
                x == generator_power(24),
                y == generator_power(25),
                t == generator_quotient(24),
        ;
    } else if k == 25 {
        assert(x * x == t * modulus() + y) by (nonlinear_arith)
            requires
                x == generator_power(25),
                y == generator_power(26),
                t == generator_quotient(25),
        ;
    } else if k == 26 {
        assert(x * x == t * modulus() + y) by (nonlinear_arith)
            requires
                x == generator_power(26),
                y == generator_power(27),
                t == generator_quotient(26),
        ;
    } else if k == 27 {
        assert(x * x == t * modulus() + y) by (nonlinear_arith)
            requires
                x == generator_power(27),
                y == generator_power(28),
                t == generator_quotient(27),
        ;
    } else if k == 28 {
        assert(x * x == t * modulus() + y) by (nonlinear_arith)
            requires
                x == generator_power(28),
                y == generator_power(29),
                t == generator_quotient(28),
        ;
    } else if k == 29 {
        assert(x * x == t * modulus() + y) by (nonlinear_arith)
            requires
                x == generator_power(29),
                y == generator_power(30),
                t == generator_quotient(29),
        ;
    } else if k == 30 {
        assert(x * x == t * modulus() + y) by (nonlinear_arith)
            requires
                x == generator_power(30),
                y == generator_power(31),
                t == generator_quotient(30),
        ;
    } else {
        assert(x * x == t * modulus() + y) by (nonlinear_arith)
            requires
                x == generator_power(31),
                y == generator_power(32),
                t == generator_quotient(31),
        ;
    }
    lemma_fundamental_div_mod_converse((x * x) as int, modulus() as int, t as int, y as int);
}

/// Squaring doubles the exponent: `a^(2^(k+1)) == (a^(2^k))^2`.
pub proof fn lemma_pow_mod_pow2_succ(a: nat, k: nat)
    ensures
        pow_mod(a, pow2(k + 1)) == mul_mod(pow_mod(a, pow2(k)), pow_mod(a, pow2(k))),
{
    lemma_pow2_unfold(k + 1);
    lemma_pow_mod_add(a, pow2(k), pow2(k));
}

/// `root_power(k)` is the root of unity raised to `2^k`.
pub proof fn lemma_root_power(k: nat)
    requires
        k <= 32,
    ensures
        pow_mod(root_of_unity_value(), pow2(k)) == root_power(k),
        root_power(k) < modulus(),
    decreases k,
{
    if k == 0 {
        lemma2_to64();
        lemma_pow_mod_one(root_of_unity_value());
    } else {
        lemma_root_power((k - 1) as nat);
        lemma_pow_mod_pow2_succ(root_of_unity_value(), (k - 1) as nat);
        lemma_root_power_step((k - 1) as nat);
    }
}

/// `generator_power(k)` is the generator raised to `2^k`, and it is not 1.
pub proof fn lemma_generator_power(k: nat)
    requires
        k <= 32,
    ensures
        pow_mod(generator_value(), pow2(k)) == generator_power(k),
        generator_power(k) < modulus(),
        generator_power(k) != 1,
    decreases k,
{
    if k == 0 {
        lemma2_to64();
        lemma_pow_mod_one(generator_value());
    } else {
        lemma_generator_power((k - 1) as nat);
        lemma_pow_mod_pow2_succ(generator_value(), (k - 1) as nat);
        lemma_generator_power_step((k - 1) as nat);
    }
}

/// The root of unity has order exactly `2^32`: its `2^31`-th power is `-1`
/// and its `2^32`-th power is 1.
pub proof fn lemma_root_of_unity_order()
    ensures
        pow_mod(root_of_unity_value(), pow2(31)) == modulus() - 1,
        pow_mod(root_of_unity_value(), pow2(32)) == 1,
{
    lemma_root_power(31);
    lemma_root_power(32);
}

} // verus!
