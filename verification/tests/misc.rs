use ty_compare::canonicalize;
use ty_compare::must_equal;
use ty_compare::must_subtype;
use ty_compare::resolve;
use ty_compare::Clo;
use ty_compare::Env;
use ty_compare::Name;
use ty_compare::Ty;
use ty_compare::TyErr;
use ty_compare::UnifStore;

fn n(s: &str) -> Name {
    Name::Src(String::from(s))
}

fn base(s: &str) -> Ty {
    Ty::Base(n(s))
}

fn vr(s: &str) -> Ty {
    Ty::Var(n(s))
}

fn func(params: Vec<Ty>, ret: Ty) -> Ty {
    Ty::Func { params, ret: Box::new(ret) }
}

fn poly(params: Vec<&str>, body: Ty) -> Ty {
    Ty::Forall { params: params.into_iter().map(n).collect(), body: Box::new(body) }
}

fn mu(params: Vec<&str>, body: Ty) -> Ty {
    Ty::Mu { params: params.into_iter().map(n).collect(), body: Box::new(body) }
}

fn tapp(rator: Ty, args: Vec<Ty>) -> Ty {
    Ty::Apply { rator: Box::new(rator), args }
}

fn enum_ty(arms: Vec<(&str, Vec<Ty>)>) -> Ty {
    Ty::Enum(arms.into_iter().map(|(s, c)| (n(s), c)).collect())
}

fn env_of(pairs: Vec<(&str, Ty)>) -> Env {
    let mut e = Env::new();
    for (s, t) in pairs {
        e = e.set(n(s), t);
    }
    e
}

fn list_ty() -> Ty {
    poly(
        vec!["Datum"],
        mu(
            vec!["List"],
            enum_ty(vec![
                ("Nil", vec![]),
                ("Cons", vec![vr("Datum"), tapp(vr("List"), vec![vr("Datum")])]),
            ]),
        ),
    )
}

fn int_list_ty() -> Ty {
    mu(
        vec!["IntList"],
        enum_ty(vec![("Nil", vec![]), ("Cons", vec![base("Int"), vr("IntList")])]),
    )
}

fn float_list_ty() -> Ty {
    mu(
        vec!["FloatList"],
        enum_ty(vec![("Nil", vec![]), ("Cons", vec![base("Float"), vr("FloatList")])]),
    )
}

#[test]
fn misc_subtyping_problems() {
    let ty_env = env_of(vec![
        ("IntList", int_list_ty()),
        ("FloatList", float_list_ty()),
        ("List", list_ty()),
    ]);

    // Test that canonicalization accepts protected binders:
    assert!(canonicalize(&list_ty(), &ty_env, &UnifStore::new()).is_ok());

    // μ also has binding:
    assert!(must_subtype(&int_list_ty(), &int_list_ty(), &ty_env).is_ok());
    assert!(must_subtype(&int_list_ty(), &float_list_ty(), &ty_env).is_err());

    // Don't walk enum arm names as types!
    let basic_enum = enum_ty(vec![("Aa", vec![base("Int")]), ("Bb", vec![])]);
    assert!(must_subtype(&basic_enum, &basic_enum, &Env::new()).is_ok());

    let basic_mu = mu(vec!["X"], vr("X"));
    let mu_env = env_of(vec![("X", basic_mu.dup())]);

    // Don't diverge on μ!
    assert!(must_subtype(&basic_mu, &basic_mu, &mu_env).is_ok());

    let id_fn_ty = poly(vec!["t"], func(vec![vr("t")], vr("t")));
    let int_ty = base("Int");
    let nat_ty = base("Nat");
    let int_to_int_fn_ty = func(vec![int_ty.dup()], int_ty.dup());

    let parametric_ty_env = env_of(vec![
        ("some_int", base("Int")),
        ("convert_to_nat", poly(vec!["t"], func(vec![vr("t")], nat_ty.dup()))),
        ("identity", id_fn_ty.dup()),
        ("int_to_int", int_to_int_fn_ty.dup()),
    ]);

    assert!(must_subtype(
        &tapp(vr("identity"), vec![base("Int")]),
        &tapp(vr("identity"), vec![base("Int")]),
        &parametric_ty_env
    )
    .is_ok());

    assert!(must_subtype(
        &tapp(vr("identity"), vec![base("Int")]),
        &vr("identity"),
        &parametric_ty_env
    )
    .is_ok());

    // Some things that involve mu

    let ty_env2 = env_of(vec![
        ("IntList", int_list_ty()),
        ("FloatList", float_list_ty()),
        ("List", list_ty()),
    ]);

    assert!(must_subtype(&vr("List"), &vr("List"), &ty_env2).is_ok());

    assert!(must_subtype(
        &tapp(vr("List"), vec![base("Int")]),
        &tapp(vr("List"), vec![base("Int")]),
        &ty_env2
    )
    .is_ok());

    assert!(must_subtype(
        &tapp(list_ty(), vec![base("Int")]),
        &tapp(vr("List"), vec![base("Int")]),
        &ty_env2
    )
    .is_ok());

    assert!(must_subtype(
        &mu(vec!["List"], tapp(vr("List"), vec![base("Int")])),
        &mu(vec!["List"], tapp(vr("List"), vec![base("Int")])),
        &ty_env2
    )
    .is_ok());

    // Reparameterize
    assert!(must_subtype(
        &vr("List"),
        &poly(vec!["Datum2"], tapp(vr("List"), vec![vr("Datum2")])),
        &ty_env2
    )
    .is_ok());
}

#[test]
fn equal_after_expansion() {
    let id_fn_ty = poly(vec!["t"], func(vec![vr("t")], vr("t")));
    let int_to_int_fn_ty = func(vec![base("Int")], base("Int"));
    let env = env_of(vec![("identity", id_fn_ty.dup())]);

    // Applying the identity type operator to Int canonicalizes to Int -> Int.
    assert_eq!(
        canonicalize(&tapp(vr("identity"), vec![base("Int")]), &env, &UnifStore::new()),
        Ok(int_to_int_fn_ty.dup())
    );
    assert!(must_equal(&tapp(vr("identity"), vec![base("Int")]), &int_to_int_fn_ty, &env).is_ok());
}

#[test]
fn unequal_base_types() {
    let env = Env::new();
    assert_eq!(
        must_equal(&base("Int"), &base("Nat"), &env),
        Err(TyErr::Mismatch(base("Int"), base("Nat")))
    );
}

#[test]
fn unbound_placeholder_error() {
    let env = Env::new();
    assert_eq!(
        canonicalize(&Ty::Undet(n("mystery")), &env, &UnifStore::new()),
        Err(TyErr::UnboundName(n("mystery")))
    );
}

#[test]
fn arity_mismatch_error() {
    // A forall of one parameter applied to two arguments is a kind error.
    let bad = tapp(poly(vec!["t"], vr("t")), vec![base("Int"), base("Nat")]);
    let r = resolve(Clo { it: bad, env: Env::new() }, &UnifStore::new());
    assert_eq!(r, Err(TyErr::ArityMismatch(1, 2)));
}

#[test]
fn depth_guard_on_cyclic_env() {
    // An environment whose reference chains cycle would make resolution loop;
    // the divergence guard reports it instead.
    let env = env_of(vec![("X", vr("Y")), ("Y", vr("X"))]);
    let r = resolve(Clo { it: vr("X"), env }, &UnifStore::new());
    assert_eq!(r, Err(TyErr::DepthExceeded));
}
