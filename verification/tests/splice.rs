use ty_compare::must_subtype;
use ty_compare::Env;
use ty_compare::Name;
use ty_compare::Ty;
use ty_compare::TyErr;

fn n(s: &str) -> Name {
    Name::Src(String::from(s))
}

fn base(s: &str) -> Ty {
    Ty::Base(n(s))
}

fn vr(s: &str) -> Ty {
    Ty::Var(n(s))
}

fn poly(params: Vec<&str>, body: Ty) -> Ty {
    Ty::Forall { params: params.into_iter().map(n).collect(), body: Box::new(body) }
}

fn tapp(rator: Ty, args: Vec<Ty>) -> Ty {
    Ty::Apply { rator: Box::new(rator), args }
}

fn tuple(comps: Vec<Ty>) -> Ty {
    Ty::Tuple(comps)
}

fn ddd(drivers: Vec<&str>, body: Ty) -> Ty {
    Ty::DotDotDot { drivers: drivers.into_iter().map(n).collect(), body: Box::new(body) }
}

fn env_of(pairs: Vec<(&str, Ty)>) -> Env {
    let mut e = Env::new();
    for (s, t) in pairs {
        e = e.set(n(s), t);
    }
    e
}

#[test]
fn subtype_dotdotdot_type() {
    let threeple = tuple(vec![base("Int"), base("Float"), base("Nat")]);
    let dddple = poly(vec!["T"], tuple(vec![ddd(vec!["T"], vr("T"))]));

    assert!(must_subtype(&threeple, &dddple, &Env::new()).is_ok());

    assert!(must_subtype(&dddple, &dddple, &Env::new()).is_ok());

    let expr_threeple = tuple(vec![
        tapp(base("Expr"), vec![base("Int")]),
        tapp(base("Expr"), vec![base("Float")]),
        tapp(base("Expr"), vec![base("Nat")]),
    ]);
    let expr_dddple = poly(
        vec!["T"],
        tuple(vec![ddd(vec!["T"], tapp(base("Expr"), vec![vr("T")]))]),
    );

    assert!(must_subtype(&expr_threeple, &dddple, &Env::new()).is_ok());
    assert!(must_subtype(&expr_threeple, &expr_dddple, &Env::new()).is_ok());
}

#[test]
fn splice_length_mismatch() {
    // The driver resolves to a tuple of two components, but the context has
    // three positions.
    let env = env_of(vec![("T", tuple(vec![base("Int"), base("Float")]))]);
    let threeple = tuple(vec![base("Int"), base("Float"), base("Nat")]);
    let spliced = tuple(vec![ddd(vec!["T"], vr("T"))]);

    assert_eq!(
        must_subtype(&threeple, &spliced, &env),
        Err(TyErr::LengthMismatch(vec![base("Int"), base("Float")], 3))
    );
}

#[test]
fn splice_wrong_shape() {
    // A driver that resolves to something that is not a tuple cannot be
    // spliced.
    let env = env_of(vec![("T", base("Int"))]);
    let pair = tuple(vec![base("Int"), base("Nat")]);
    let spliced = tuple(vec![ddd(vec!["T"], vr("T"))]);

    assert_eq!(
        must_subtype(&pair, &spliced, &env),
        Err(TyErr::UnableToDestructure(base("Int"), n("tuple")))
    );
}

#[test]
fn splice_nested_error() {
    // A splice directly inside the single context element's body is
    // unsupported and ends the check.
    let spliced = poly(vec!["T"], tuple(vec![ddd(vec!["T"], vr("T"))]));
    let nested = poly(
        vec!["S"],
        tuple(vec![ddd(vec!["S"], ddd(vec!["S"], vr("S")))]),
    );

    assert_eq!(must_subtype(&nested, &spliced, &Env::new()), Err(TyErr::NestedSplice));
}
