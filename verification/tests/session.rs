use ty_compare::is_subtype;
use ty_compare::must_subtype;
use ty_compare::Env;
use ty_compare::Name;
use ty_compare::Ty;
use ty_compare::TyErr;
use ty_compare::UnifStore;

fn n(s: &str) -> Name {
    Name::Src(String::from(s))
}

fn base(s: &str) -> Ty {
    Ty::Base(n(s))
}

fn vr(s: &str) -> Ty {
    Ty::Var(n(s))
}

fn func(params: Vec<Ty>, ret: Ty) -> Ty {
    Ty::Func { params, ret: Box::new(ret) }
}

fn mu(params: Vec<&str>, body: Ty) -> Ty {
    Ty::Mu { params: params.into_iter().map(n).collect(), body: Box::new(body) }
}

fn tuple(comps: Vec<Ty>) -> Ty {
    Ty::Tuple(comps)
}

fn strukt(pairs: Vec<(&str, Ty)>) -> Ty {
    Ty::Struct(pairs.into_iter().map(|(s, t)| (n(s), t)).collect())
}

#[test]
fn session_determinations_persist() {
    // A determination recorded by one check stays visible to later checks in
    // the same session: first the placeholder is determined to be Int, so a
    // later attempt to use it as Float fails.
    let mut st = UnifStore::new();
    let env = Env::new();
    let u = st.underspecified("pending");

    assert!(is_subtype(&base("Int"), &u, &env, &mut st).is_ok());
    assert_eq!(
        is_subtype(&base("Float"), &u, &env, &mut st),
        Err(TyErr::Mismatch(base("Float"), base("Int")))
    );
}

#[test]
fn empty_tuple_reflexive() {
    assert!(must_subtype(&tuple(vec![]), &tuple(vec![]), &Env::new()).is_ok());
}

#[test]
fn empty_struct_widens() {
    // A struct with no components fits any struct expectation.
    assert!(must_subtype(
        &strukt(vec![]),
        &strukt(vec![("a", base("Int"))]),
        &Env::new()
    )
    .is_ok());
    // ... but not the other way around.
    assert!(must_subtype(
        &strukt(vec![("a", base("Int"))]),
        &strukt(vec![]),
        &Env::new()
    )
    .is_err());
}

#[test]
fn mu_binder_count_mismatch() {
    let one = mu(vec!["X"], func(vec![base("Int")], vr("X")));
    let two = mu(vec!["X", "Y"], func(vec![base("Int")], vr("X")));
    assert!(must_subtype(&one, &two, &Env::new()).is_err());
}
