use rdsgen::bignat::BigNat;
use rdsgen::crypto::curve::EllipticCurvePoint;
use rdsgen::types::{LKPCurve, SPKCurve};

fn n(v: u64) -> BigNat {
    BigNat::from_u64(v)
}

// The curve y^2 = x^3 + x over the field of 23 elements.
fn small(x: u64, y: u64) -> EllipticCurvePoint {
    EllipticCurvePoint::new(n(x), n(y), n(1), n(23))
}

fn same(p: &EllipticCurvePoint, q: &EllipticCurvePoint) -> bool {
    if p.infinity || q.infinity {
        p.infinity == q.infinity
    } else {
        p.x.equals(&q.x) && p.y.equals(&q.y)
    }
}

#[test]
fn doubling_on_small_curve() {
    let p = small(9, 5);
    let d = p.add(&p);
    assert!(!d.infinity);
    assert!(d.x.equals(&n(18)));
    assert!(d.y.equals(&n(10)));
    assert!(d.a.equals(&n(1)));
    assert!(d.p.equals(&n(23)));
}

#[test]
fn addition_on_small_curve() {
    // (9, 5) + (18, 10): slope 5 / 9 = 5 * 18 = 21, x3 = 441 - 27 = 0, y3 = 21 * 9 - 5 = 0
    let r = small(9, 5).add(&small(18, 10));
    assert!(!r.infinity);
    assert!(r.x.equals(&n(0)));
    assert!(r.y.equals(&n(0)));
}

#[test]
fn identity_and_inverse() {
    let p = small(9, 5);
    let inf = EllipticCurvePoint::infinity(n(1), n(23));
    assert!(inf.infinity && inf.x.is_zero() && inf.y.is_zero());
    assert!(same(&p.add(&inf), &p));
    assert!(same(&inf.add(&p), &p));
    assert!(inf.add(&inf).infinity);
    // equal x and differing y: the points are inverse to each other
    assert!(p.add(&small(9, 18)).infinity);
}

#[test]
fn scalar_multiples_on_small_curve() {
    let p = small(9, 5);
    assert!(p.mul(&n(0)).infinity);
    assert!(same(&p.mul(&n(1)), &p));
    assert!(same(&p.mul(&n(2)), &p.add(&p)));
    let three = p.add(&p).add(&p);
    assert!(same(&p.mul(&n(3)), &three));
    let mut acc = EllipticCurvePoint::infinity(n(1), n(23));
    for _ in 0..5 {
        acc = acc.add(&p);
    }
    assert!(same(&p.mul(&n(5)), &acc));
}

#[test]
fn division_without_result_is_reported() {
    // (0, 0) has order 2: its tangent is vertical and the slope has no value
    let p = small(0, 0);
    assert!(p.checked_add(&p).is_none());
    assert!(p.checked_mul(&n(1)).is_none());
    assert!(p.checked_mul(&n(0)).unwrap().infinity);
    // an empty field
    let q = EllipticCurvePoint::new(n(1), n(2), n(1), n(0));
    assert!(q.checked_add(&EllipticCurvePoint::new(n(3), n(4), n(1), n(0))).is_none());
    // the checked forms agree with the plain ones where there is a result
    let p = small(9, 5);
    assert!(same(&p.checked_add(&p).unwrap(), &p.add(&p)));
    assert!(same(&p.checked_mul(&n(3)).unwrap(), &p.mul(&n(3))));
}

#[test]
fn spk_public_point_is_private_scalar_times_base_point() {
    let g = EllipticCurvePoint::new(SPKCurve::gx(), SPKCurve::gy(), n(1), SPKCurve::p());
    let k = g.mul(&SPKCurve::priv_key());
    assert!(!k.infinity);
    assert!(k.x.equals(&SPKCurve::kx()));
    assert!(k.y.equals(&SPKCurve::ky()));
}

#[test]
fn lkp_public_point_is_private_scalar_times_base_point() {
    let g = EllipticCurvePoint::new(LKPCurve::gx(), LKPCurve::gy(), n(1), LKPCurve::p());
    let k = g.mul(&LKPCurve::priv_key());
    assert!(!k.infinity);
    assert!(k.x.equals(&LKPCurve::kx()));
    assert!(k.y.equals(&LKPCurve::ky()));
}

#[test]
fn multiples_add_up() {
    let g = EllipticCurvePoint::new(SPKCurve::gx(), SPKCurve::gy(), n(1), SPKCurve::p());
    let below = g.mul(&BigNat::from_u64(1)).add(&g.mul(&n(2)));
    assert!(same(&below, &g.mul(&n(3))));
}

#[test]
fn domain_parameters_match_their_decimal_form() {
    let dec = |s: &str| num_bigint::BigUint::parse_bytes(s.as_bytes(), 10).unwrap().to_bytes_le();
    let val = |b: BigNat| num_bigint::BigUint::from_bytes_le(&b.bytes).to_bytes_le();
    assert_eq!(val(SPKCurve::p()), dec("21782971228112002125810473336838725345308036616026120243639513697227789232461459408261967852943809534324870610618161"));
    assert_eq!(val(SPKCurve::n()), dec("629063109922370885449"));
    assert_eq!(val(SPKCurve::gx()), dec("10692194187797070010417373067833672857716423048889432566885309624149667762706899929433420143814127803064297378514651"));
    assert_eq!(val(SPKCurve::gy()), dec("14587399915883137990539191966406864676102477026583239850923355829082059124877792299572208431243410905713755917185109"));
    assert_eq!(val(SPKCurve::kx()), dec("3917395608307488535457389605368226854270150445881753750395461980792533894109091921400661704941484971683063487980768"));
    assert_eq!(val(SPKCurve::ky()), dec("8858262671783403684463979458475735219807686373661776500155868309933327116988404547349319879900761946444470688332645"));
    assert_eq!(val(SPKCurve::priv_key()), dec("153862071918555979944"));
    assert_eq!(val(LKPCurve::p()), dec("28688293616765795404141427476803815352899912533728694325464374376776313457785622361119232589082131818578591461837297"));
    assert_eq!(val(LKPCurve::n()), dec("675048016158598417213"));
    assert_eq!(val(LKPCurve::gx()), dec("18999816458520350299014628291870504329073391058325678653840191278128672378485029664052827205905352913351648904170809"));
    assert_eq!(val(LKPCurve::gy()), dec("7233699725243644729688547165924232430035643592445942846958231777803539836627943189850381859836033366776176689124317"));
    assert_eq!(val(LKPCurve::kx()), dec("7147768390112741602848314103078506234267895391544114241891627778383312460777957307647946308927283757886117119137500"));
    assert_eq!(val(LKPCurve::ky()), dec("20525272195909974311677173484301099561025532568381820845650748498800315498040161314197178524020516408371544778243934"));
    assert_eq!(val(LKPCurve::priv_key()), dec("100266970209474387075"));
    assert_eq!(SPKCurve::A, 1);
    assert_eq!(SPKCurve::B, 0);
    assert_eq!(LKPCurve::A, 1);
    assert_eq!(LKPCurve::B, 0);
}

#[test]
fn curve_equation() {
    assert!(small(9, 5).is_on_curve());
    assert!(small(9, 18).is_on_curve());
    assert!(small(18, 10).is_on_curve());
    assert!(small(0, 0).is_on_curve());
    assert!(!small(9, 6).is_on_curve());
    assert!(!small(1, 1).is_on_curve());
    // coordinates above the field size count by their remainder
    assert!(small(9 + 23, 5 + 46).is_on_curve());
    assert!(EllipticCurvePoint::infinity(n(1), n(23)).is_on_curve());
    assert!(EllipticCurvePoint::infinity(n(1), n(0)).is_on_curve());
    // no finite point over an empty field
    assert!(!EllipticCurvePoint::new(n(0), n(0), n(1), n(0)).is_on_curve());
}

#[test]
fn sums_and_multiples_stay_on_the_curve() {
    let p = small(9, 5);
    assert!(p.add(&p).is_on_curve());
    assert!(p.add(&small(18, 10)).is_on_curve());
    for k in 0..12 {
        assert!(p.mul(&n(k)).is_on_curve());
    }
}

#[test]
fn domain_points_are_on_their_curves() {
    let one = || n(1);
    assert!(EllipticCurvePoint::new(SPKCurve::gx(), SPKCurve::gy(), one(), SPKCurve::p())
        .is_on_curve());
    assert!(EllipticCurvePoint::new(SPKCurve::kx(), SPKCurve::ky(), one(), SPKCurve::p())
        .is_on_curve());
    assert!(EllipticCurvePoint::new(LKPCurve::gx(), LKPCurve::gy(), one(), LKPCurve::p())
        .is_on_curve());
    assert!(EllipticCurvePoint::new(LKPCurve::kx(), LKPCurve::ky(), one(), LKPCurve::p())
        .is_on_curve());
    // the base point of one set is not on the curve of the other
    assert!(!EllipticCurvePoint::new(SPKCurve::gx(), SPKCurve::gy(), one(), LKPCurve::p())
        .is_on_curve());
}

#[test]
fn base_point_times_its_order_is_the_identity() {
    let g = EllipticCurvePoint::new(SPKCurve::gx(), SPKCurve::gy(), n(1), SPKCurve::p());
    assert!(g.mul(&SPKCurve::n()).infinity);
    let g = EllipticCurvePoint::new(LKPCurve::gx(), LKPCurve::gy(), n(1), LKPCurve::p());
    assert!(g.mul(&LKPCurve::n()).infinity);
}

#[test]
fn points_of_different_curves_are_not_added() {
    let p = small(9, 5);
    let other_field = EllipticCurvePoint::new(n(9), n(5), n(1), n(29));
    let other_coefficient = EllipticCurvePoint::new(n(9), n(5), n(2), n(23));
    assert!(p.checked_add(&other_field).is_none());
    assert!(p.checked_add(&other_coefficient).is_none());
    // not even the identity of another curve
    assert!(p.checked_add(&EllipticCurvePoint::infinity(n(1), n(29))).is_none());
    assert!(EllipticCurvePoint::infinity(n(1), n(29)).checked_add(&p).is_none());
    // the same curve written with other bytes is the same curve
    let same = EllipticCurvePoint::new(
        n(18),
        n(10),
        rdsgen::crypto::bytes_to_bigint_le(&[1, 0, 0]),
        rdsgen::crypto::bytes_to_bigint_le(&[23, 0]),
    );
    assert!(p.checked_add(&same).is_some());
}
