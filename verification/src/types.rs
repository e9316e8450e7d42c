//! The two sets of domain parameters and the license catalog.

use crate::bignat::BigNat;
use crate::error::KeyError;
use crate::text::{parse_decimal, parse_number};
use vstd::prelude::*;
use vstd::utf8::encode_utf8;

verus! {

/// A set of domain parameters as numbers: the field prime `p`, the curve
/// coefficient `a`, the base point `(gx, gy)`, the public point `(kx, ky)`,
/// the order `n` of the base point and the private scalar `d`.
pub struct CurveModel {
    pub p: nat,
    pub a: nat,
    pub gx: nat,
    pub gy: nat,
    pub kx: nat,
    pub ky: nat,
    pub n: nat,
    pub d: nat,
}

/// The domain parameters for server keys, as numbers.
#[verifier::opaque]
pub open spec fn spk_curve() -> CurveModel {
    CurveModel {
        p: 21782971228112002125810473336838725345308036616026120243639513697227789232461459408261967852943809534324870610618161nat,
        a: 1,
        gx: 10692194187797070010417373067833672857716423048889432566885309624149667762706899929433420143814127803064297378514651nat,
        gy: 14587399915883137990539191966406864676102477026583239850923355829082059124877792299572208431243410905713755917185109nat,
        kx: 3917395608307488535457389605368226854270150445881753750395461980792533894109091921400661704941484971683063487980768nat,
        ky: 8858262671783403684463979458475735219807686373661776500155868309933327116988404547349319879900761946444470688332645nat,
        n: 629063109922370885449nat,
        d: 153862071918555979944nat,
    }
}

/// The domain parameters for license key packs, as numbers.
#[verifier::opaque]
pub open spec fn lkp_curve() -> CurveModel {
    CurveModel {
        p: 28688293616765795404141427476803815352899912533728694325464374376776313457785622361119232589082131818578591461837297nat,
        a: 1,
        gx: 18999816458520350299014628291870504329073391058325678653840191278128672378485029664052827205905352913351648904170809nat,
        gy: 7233699725243644729688547165924232430035643592445942846958231777803539836627943189850381859836033366776176689124317nat,
        kx: 7147768390112741602848314103078506234267895391544114241891627778383312460777957307647946308927283757886117119137500nat,
        ky: 20525272195909974311677173484301099561025532568381820845650748498800315498040161314197178524020516408371544778243934nat,
        n: 675048016158598417213nat,
        d: 100266970209474387075nat,
    }
}

/// Both curves have the coefficient 1, and their orders differ and exceed 1.
pub proof fn lemma_curves()
    ensures
        spk_curve().a == 1,
        lkp_curve().a == 1,
        spk_curve().n != lkp_curve().n,
        spk_curve().n >= 2,
        lkp_curve().n >= 2,
{
    reveal(spk_curve);
    reveal(lkp_curve);
}

/// The domain parameters for server keys.
#[derive(Clone, Copy, Debug)]
pub struct SPKCurve;

impl SPKCurve {
    /// The curve coefficient `a`.
    pub const A: u32 = 1;

    /// The curve coefficient `b`, which the arithmetic never reads.
    pub const B: u32 = 0;

    /// The field prime.
    pub fn p() -> (r: BigNat)
        ensures
            r@ == spk_curve().p,
    {
        reveal(spk_curve);
        let v = BigNat::from_u64(0x8D86_DDAB_2522_B192);
        let v = v.shifted_in(0x0F0B_E54E_BA0D_C76F);
        let v = v.shifted_in(0x44D4_C4B5_6DC6_2EDE);
        let v = v.shifted_in(0x0902_DB44_B632_5CC5);
        let v = v.shifted_in(0x21FF_C568_072D_2B1E);
        let v = v.shifted_in(0x0B74_921E_01CB_0731);
        v
    }

    /// The order of the base point.
    pub fn n() -> (r: BigNat)
        ensures
            r@ == spk_curve().n,
    {
        reveal(spk_curve);
        let v = BigNat::from_u64(0x0000_0000_0000_0022);
        let v = v.shifted_in(0x1A01_1D8E_216C_1749);
        v
    }

    /// The base point, first coordinate.
    pub fn gx() -> (r: BigNat)
        ensures
            r@ == spk_curve().gx,
    {
        reveal(spk_curve);
        let v = BigNat::from_u64(0x4577_F558_66F2_799E);
        let v = v.shifted_in(0xDE01_FABB_914F_1673);
        let v = v.shifted_in(0xB710_3107_9CCE_98F6);
        let v = v.shifted_in(0x17C3_F0A0_E4A1_DD0D);
        let v = v.shifted_in(0x25FC_1594_9794_490E);
        let v = v.shifted_in(0x7253_8C5C_FB67_86DB);
        v
    }

    /// The base point, second coordinate.
    pub fn gy() -> (r: BigNat)
        ensures
            r@ == spk_curve().gy,
    {
        reveal(spk_curve);
        let v = BigNat::from_u64(0x5EC6_B84D_1B3C_E8A5);
        let v = v.shifted_in(0xB206_5F44_357E_5F6E);
        let v = v.shifted_in(0x628E_065A_6AD0_AA5C);
        let v = v.shifted_in(0x9440_0934_11DC_89F3);
        let v = v.shifted_in(0xD555_4E69_81CE_28C7);
        let v = v.shifted_in(0x150F_2C0C_B8A8_F055);
        v
    }

    /// The public point, first coordinate.
    pub fn kx() -> (r: BigNat)
        ensures
            r@ == spk_curve().kx,
    {
        reveal(spk_curve);
        let v = BigNat::from_u64(0x1973_AB51_58B4_1B3C);
        let v = v.shifted_in(0x720C_B8BC_1F52_C184);
        let v = v.shifted_in(0xB602_5DAF_F1DF_9F58);
        let v = v.shifted_in(0x639E_962A_5E0C_3BDE);
        let v = v.shifted_in(0xB601_626C_D670_0623);
        let v = v.shifted_in(0x998C_EF80_ACA6_E4E0);
        v
    }

    /// The public point, second coordinate.
    pub fn ky() -> (r: BigNat)
        ensures
            r@ == spk_curve().ky,
    {
        reveal(spk_curve);
        let v = BigNat::from_u64(0x398D_A4AB_BE1D_EC88);
        let v = v.shifted_in(0x35F0_DFC7_DC1E_DBE7);
        let v = v.shifted_in(0x4A8D_F926_B86E_DB5F);
        let v = v.shifted_in(0xE1A0_E0AA_CAC4_AAB8);
        let v = v.shifted_in(0x0F88_7FCD_C2C9_424C);
        let v = v.shifted_in(0x17EB_53B2_B4C6_BB65);
        v
    }

    /// The private scalar.
    pub fn priv_key() -> (r: BigNat)
        ensures
            r@ == spk_curve().d,
    {
        reveal(spk_curve);
        let v = BigNat::from_u64(0x0000_0000_0000_0008);
        let v = v.shifted_in(0x5743_E336_B722_60A8);
        v
    }
}

/// The domain parameters for license key packs.
#[derive(Clone, Copy, Debug)]
pub struct LKPCurve;

impl LKPCurve {
    /// The curve coefficient `a`.
    pub const A: u32 = 1;

    /// The curve coefficient `b`, which the arithmetic never reads.
    pub const B: u32 = 0;

    /// The field prime.
    pub fn p() -> (r: BigNat)
        ensures
            r@ == lkp_curve().p,
    {
        reveal(lkp_curve);
        let v = BigNat::from_u64(0xBA64_4035_B910_3CAB);
        let v = v.shifted_in(0x0154_347B_4CC9_953E);
        let v = v.shifted_in(0xF652_DB89_9DB5_A786);
        let v = v.shifted_in(0x16FB_8127_5951_B343);
        let v = v.shifted_in(0xD75B_1C9E_2C64_0D4F);
        let v = v.shifted_in(0x40C9_5E7F_B93E_89F1);
        v
    }

    /// The order of the base point.
    pub fn n() -> (r: BigNat)
        ensures
            r@ == lkp_curve().n,
    {
        reveal(lkp_curve);
        let v = BigNat::from_u64(0x0000_0000_0000_0024);
        let v = v.shifted_in(0x982C_5223_7968_CB3D);
        v
    }

    /// The base point, first coordinate.
    pub fn gx() -> (r: BigNat)
        ensures
            r@ == lkp_curve().gx,
    {
        reveal(lkp_curve);
        let v = BigNat::from_u64(0x7B71_BD8B_7764_CC6B);
        let v = v.shifted_in(0x27AB_4DCE_3D8C_6CF8);
        let v = v.shifted_in(0xDFC2_ABAF_A15D_F9EE);
        let v = v.shifted_in(0x7788_D5BC_CD7B_3056);
        let v = v.shifted_in(0x35DD_01DE_9467_45EF);
        let v = v.shifted_in(0xB568_C9E2_DE13_4D39);
        v
    }

    /// The base point, second coordinate.
    pub fn gy() -> (r: BigNat)
        ensures
            r@ == lkp_curve().gy,
    {
        reveal(lkp_curve);
        let v = BigNat::from_u64(0x2EFF_904A_DFBE_2476);
        let v = v.shifted_in(0xDF41_C232_3571_32BB);
        let v = v.shifted_in(0x506E_B7E0_26AC_CFE9);
        let v = v.shifted_in(0xA677_C9DA_729F_33AF);
        let v = v.shifted_in(0x4223_2231_4E0D_35E8);
        let v = v.shifted_in(0x7CE0_F1EB_E505_93DD);
        v
    }

    /// The public point, first coordinate.
    pub fn kx() -> (r: BigNat)
        ensures
            r@ == lkp_curve().kx,
    {
        reveal(lkp_curve);
        let v = BigNat::from_u64(0x2E70_A313_384F_6E43);
        let v = v.shifted_in(0xDEBB_A92F_830E_BDF0);
        let v = v.shifted_in(0x2BDF_4AA5_EC09_0B52);
        let v = v.shifted_in(0x2BCD_667F_51C8_B63B);
        let v = v.shifted_in(0x8775_0575_01E6_0DF0);
        let v = v.shifted_in(0xDDF5_85D0_6C02_16DC);
        v
    }

    /// The public point, second coordinate.
    pub fn ky() -> (r: BigNat)
        ensures
            r@ == lkp_curve().ky,
    {
        reveal(lkp_curve);
        let v = BigNat::from_u64(0x855A_FA78_B6FA_F534);
        let v = v.shifted_in(0x9D89_8D56_988C_34B5);
        let v = v.shifted_in(0xF8CF_F92D_4CE6_E9E4);
        let v = v.shifted_in(0x78F1_9388_4397_34F8);
        let v = v.shifted_in(0x9240_053C_7AAD_174E);
        let v = v.shifted_in(0x7D12_FEAA_84F2_7F5E);
        v
    }

    /// The private scalar.
    pub fn priv_key() -> (r: BigNat)
        ensures
            r@ == lkp_curve().d,
    {
        reveal(lkp_curve);
        let v = BigNat::from_u64(0x0000_0000_0000_0005);
        let v = v.shifted_in(0x6F7B_D62B_1865_1C83);
        v
    }
}


/// The license types: each code `CHID_MAJOR_MINOR` with its description.
pub open spec fn catalog() -> Seq<(&'static str, &'static str)> {
    seq![
        ("001_5_0", "Windows 2000 Per Device"),
        ("002_5_0", "Windows 2000 Internet Connector"),
        ("003_5_2", "Windows Server 2003 Per User"),
        ("004_5_2", "Windows Server 2003 Per Device"),
        ("005_6_0", "Windows Server 2008 (R2) Per Device"),
        ("006_6_0", "Windows Server 2008 (R2) Per User"),
        ("009_6_0", "Windows Server 2008 (R2) VDI Standard"),
        ("010_6_0", "Windows Server 2008 (R2) VDI Premium"),
        ("016_6_0", "Windows Server 2008 (R2) VDI Suite"),
        ("011_6_2", "Windows Server 2012 (R2) Per Device"),
        ("012_6_2", "Windows Server 2012 (R2) Per User"),
        ("015_6_2", "Windows Server 2012 (R2) VDI Suite"),
        ("020_10_0", "Windows Server 2016 Per Device"),
        ("021_10_0", "Windows Server 2016 Per User"),
        ("022_10_0", "Windows Server 2016 VDI Suite"),
        ("026_10_1", "Windows Server 2019 Per Device"),
        ("027_10_1", "Windows Server 2019 Per User"),
        ("028_10_1", "Windows Server 2019 VDI Suite"),
        ("029_10_2", "Windows Server 2022 Per Device"),
        ("030_10_2", "Windows Server 2022 Per User"),
        ("031_10_2", "Windows Server 2022 VDI Suite"),
        ("032_10_3", "Windows Server 2025 Per Device"),
        ("033_10_3", "Windows Server 2025 Per User"),
        ("034_10_3", "Windows Server 2025 VDI Suite"),
    ]
}

/// The license types: each code `CHID_MAJOR_MINOR` with its description.
pub fn license_types() -> (r: Vec<(&'static str, &'static str)>)
    ensures
        r@ == catalog(),
{
    let v = vec![
        ("001_5_0", "Windows 2000 Per Device"),
        ("002_5_0", "Windows 2000 Internet Connector"),
        ("003_5_2", "Windows Server 2003 Per User"),
        ("004_5_2", "Windows Server 2003 Per Device"),
        ("005_6_0", "Windows Server 2008 (R2) Per Device"),
        ("006_6_0", "Windows Server 2008 (R2) Per User"),
        ("009_6_0", "Windows Server 2008 (R2) VDI Standard"),
        ("010_6_0", "Windows Server 2008 (R2) VDI Premium"),
        ("016_6_0", "Windows Server 2008 (R2) VDI Suite"),
        ("011_6_2", "Windows Server 2012 (R2) Per Device"),
        ("012_6_2", "Windows Server 2012 (R2) Per User"),
        ("015_6_2", "Windows Server 2012 (R2) VDI Suite"),
        ("020_10_0", "Windows Server 2016 Per Device"),
        ("021_10_0", "Windows Server 2016 Per User"),
        ("022_10_0", "Windows Server 2016 VDI Suite"),
        ("026_10_1", "Windows Server 2019 Per Device"),
        ("027_10_1", "Windows Server 2019 Per User"),
        ("028_10_1", "Windows Server 2019 VDI Suite"),
        ("029_10_2", "Windows Server 2022 Per Device"),
        ("030_10_2", "Windows Server 2022 Per User"),
        ("031_10_2", "Windows Server 2022 VDI Suite"),
        ("032_10_3", "Windows Server 2025 Per Device"),
        ("033_10_3", "Windows Server 2025 Per User"),
        ("034_10_3", "Windows Server 2025 VDI Suite"),
    ];
    assert(v@ =~= catalog());
    v
}


/// A license type as plain values: what a `LicenseInfo` denotes.
pub struct LicenseModel {
    pub chid: nat,
    pub major_ver: nat,
    pub minor_ver: nat,
    pub description: Seq<char>,
}

/// A license type of the catalog: its channel identifier, its version and
/// its description.
#[derive(Debug)]
pub struct LicenseInfo {
    pub chid: u32,
    pub major_ver: u32,
    pub minor_ver: u32,
    pub description: String,
}

impl Clone for LicenseInfo {
    fn clone(&self) -> (r: Self)
        ensures
            r@ == self@,
    {
        LicenseInfo {
            chid: self.chid,
            major_ver: self.major_ver,
            minor_ver: self.minor_ver,
            description: self.description.clone(),
        }
    }
}

impl View for LicenseInfo {
    type V = LicenseModel;

    open spec fn view(&self) -> LicenseModel {
        LicenseModel {
            chid: self.chid as nat,
            major_ver: self.major_ver as nat,
            minor_ver: self.minor_ver as nat,
            description: self.description@,
        }
    }
}

/// The parts of `s` between its underscores, in order. A text without an
/// underscore is one part; an underscore at either end borders an empty one.
pub open spec fn fields(s: Seq<u8>) -> Seq<Seq<u8>>
    decreases s.len(),
{
    if s.len() == 0 {
        seq![Seq::empty()]
    } else {
        let before = fields(s.drop_last());
        if s.last() == 0x5F {
            before.push(Seq::empty())
        } else {
            before.drop_last().push(before.last().push(s.last()))
        }
    }
}

/// The description of the first entry of `entries` with the code `code`.
pub open spec fn description_of(entries: Seq<(&'static str, &'static str)>, code: Seq<char>)
    -> Option<Seq<char>>
    decreases entries.len(),
{
    if entries.len() == 0 {
        None
    } else if entries[0].0@ == code {
        Some(entries[0].1@)
    } else {
        description_of(entries.drop_first(), code)
    }
}

/// What a license code denotes. A code that does not have three parts is
/// malformed, and so is one with a part that is no number of 32 bits; a
/// well-formed code that the catalog does not hold is unknown.
pub open spec fn parse_license(code: Seq<char>) -> Result<LicenseModel, KeyError> {
    let parts = fields(encode_utf8(code));
    if parts.len() != 3 {
        Err(KeyError::LicenseFormat)
    } else {
        match (
            parse_number(parts[0], 0xFFFF_FFFF),
            parse_number(parts[1], 0xFFFF_FFFF),
            parse_number(parts[2], 0xFFFF_FFFF),
        ) {
            (Some(chid), Some(major_ver), Some(minor_ver)) => match description_of(
                catalog(),
                code,
            ) {
                Some(description) => Ok(LicenseModel { chid, major_ver, minor_ver, description }),
                None => Err(KeyError::UnknownLicenseType),
            },
            _ => Err(KeyError::LicenseNumber),
        }
    }
}

/// Whether two byte strings are equal.
fn same_bytes(a: &[u8], b: &[u8]) -> (r: bool)
    ensures
        r == (a@ == b@),
{
    if a.len() != b.len() {
        return false;
    }
    let mut i: usize = 0;
    while i < a.len()
        invariant
            i <= a.len(),
            a@.len() == b@.len(),
            a@.take(i as int) == b@.take(i as int),
        decreases a.len() - i,
    {
        if a[i] != b[i] {
            return false;
        }
        i = i + 1;
        assert(a@.take(i as int) =~= a@.take(i - 1).push(a@[i - 1]));
        assert(b@.take(i as int) =~= b@.take(i - 1).push(b@[i - 1]));
    }
    assert(a@.take(i as int) =~= a@);
    assert(b@.take(i as int) =~= b@);
    true
}

/// Whether two strings are equal.
fn same_text(a: &str, b: &str) -> (r: bool)
    ensures
        r == (a@ == b@),
{
    proof {
        vstd::utf8::encode_utf8_decode_utf8(a@);
        vstd::utf8::encode_utf8_decode_utf8(b@);
    }
    same_bytes(a.as_bytes(), b.as_bytes())
}

/// Looks a code up in the catalog.
fn find_description(code: &str) -> (r: Option<&'static str>)
    ensures
        match r {
            Some(d) => description_of(catalog(), code@) == Some(d@),
            None => description_of(catalog(), code@) is None,
        },
{
    let entries = license_types();
    let mut i: usize = 0;
    assert(entries@.skip(0) =~= entries@);
    while i < entries.len()
        invariant
            i <= entries.len(),
            entries@ == catalog(),
            description_of(catalog(), code@) == description_of(entries@.skip(i as int), code@),
        decreases entries.len() - i,
    {
        let entry = entries[i];
        proof {
            assert(entries@.skip(i as int)[0] == entry);
            assert(entries@.skip(i as int).drop_first() =~= entries@.skip(i + 1));
        }
        if same_text(entry.0, code) {
            return Some(entry.1);
        }
        i = i + 1;
    }
    None
}

/// Splits `text` at its underscores into three parts, where it has three.
fn split_three(text: &[u8]) -> (r: Option<(Vec<u8>, Vec<u8>, Vec<u8>)>)
    ensures
        match r {
            Some(parts) => fields(text@) == seq![parts.0@, parts.1@, parts.2@],
            None => fields(text@).len() != 3,
        },
{
    let mut first: Vec<u8> = Vec::new();
    let mut second: Vec<u8> = Vec::new();
    let mut third: Vec<u8> = Vec::new();
    let mut count: usize = 0;
    let mut i: usize = 0;
    while i < text.len()
        invariant
            i <= text.len(),
            count <= i,
            fields(text@.take(i as int)).len() == count + 1,
            count < 1 ==> second@.len() == 0,
            count < 2 ==> third@.len() == 0,
            count == 0 ==> fields(text@.take(i as int)) == seq![first@],
            count == 1 ==> fields(text@.take(i as int)) == seq![first@, second@],
            count == 2 ==> fields(text@.take(i as int)) == seq![first@, second@, third@],
        decreases text.len() - i,
    {
        let b = text[i];
        proof {
            assert(text@.take(i + 1).drop_last() =~= text@.take(i as int));
        }
        let ghost before = fields(text@.take(i as int));
        if b == 0x5F {
            count = count + 1;
            proof {
                let after = fields(text@.take(i + 1));
                assert(after == before.push(Seq::empty()));
                if count == 1 {
                    assert(second@ =~= Seq::<u8>::empty());
                    assert(after =~= seq![first@, second@]);
                } else if count == 2 {
                    assert(third@ =~= Seq::<u8>::empty());
                    assert(after =~= seq![first@, second@, third@]);
                }
            }
        } else {
            if count == 0 {
                first.push(b);
            } else if count == 1 {
                second.push(b);
            } else if count == 2 {
                third.push(b);
            }
            proof {
                let after = fields(text@.take(i + 1));
                assert(after == before.drop_last().push(before.last().push(b)));
                if count == 0 {
                    assert(after =~= seq![first@]);
                } else if count == 1 {
                    assert(after =~= seq![first@, second@]);
                } else if count == 2 {
                    assert(after =~= seq![first@, second@, third@]);
                }
            }
        }
        i = i + 1;
    }
    assert(text@.take(i as int) =~= text@);
    if count == 2 {
        Some((first, second, third))
    } else {
        None
    }
}

impl LicenseInfo {
    /// Resolves a license code of the form `CHID_MAJOR_MINOR`, such as
    /// `029_10_2`, into its numbers and its description.
    pub fn parse(license_type: &str) -> (r: Result<LicenseInfo, KeyError>)
        ensures
            match r {
                Ok(info) => parse_license(license_type@) == Ok::<LicenseModel, KeyError>(info@),
                Err(e) => parse_license(license_type@) == Err::<LicenseModel, KeyError>(e),
            },
    {
        let parts = match split_three(license_type.as_bytes()) {
            Some(parts) => parts,
            None => {
                return Err(KeyError::LicenseFormat);
            },
        };
        let chid = parse_decimal(&parts.0, 0xFFFF_FFFF);
        let major_ver = parse_decimal(&parts.1, 0xFFFF_FFFF);
        let minor_ver = parse_decimal(&parts.2, 0xFFFF_FFFF);
        match (chid, major_ver, minor_ver) {
            (Some(chid), Some(major_ver), Some(minor_ver)) => match find_description(
                license_type,
            ) {
                Some(description) => Ok(
                    LicenseInfo {
                        chid: chid as u32,
                        major_ver: major_ver as u32,
                        minor_ver: minor_ver as u32,
                        description: description.to_owned(),
                    },
                ),
                None => Err(KeyError::UnknownLicenseType),
            },
            _ => Err(KeyError::LicenseNumber),
        }
    }
}

} // verus!
