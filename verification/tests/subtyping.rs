use ty_compare::must_subtype;
use ty_compare::Env;
use ty_compare::Name;
use ty_compare::Ty;
use ty_compare::TyErr;
use ty_compare::UnifStore;

fn n(s: &str) -> Name {
    Name::Src(String::from(s))
}

fn base(s: &str) -> Ty {
    Ty::Base(n(s))
}

fn vr(s: &str) -> Ty {
    Ty::Var(n(s))
}

fn func(params: Vec<Ty>, ret: Ty) -> Ty {
    Ty::Func { params, ret: Box::new(ret) }
}

fn poly(params: Vec<&str>, body: Ty) -> Ty {
    Ty::Forall { params: params.into_iter().map(n).collect(), body: Box::new(body) }
}

fn mu(params: Vec<&str>, body: Ty) -> Ty {
    Ty::Mu { params: params.into_iter().map(n).collect(), body: Box::new(body) }
}

fn strukt(pairs: Vec<(&str, Ty)>) -> Ty {
    Ty::Struct(pairs.into_iter().map(|(s, t)| (n(s), t)).collect())
}

fn env_of(pairs: Vec<(&str, Ty)>) -> Env {
    let mut e = Env::new();
    for (s, t) in pairs {
        e = e.set(n(s), t);
    }
    e
}

#[test]
fn basic_subtyping() {
    let mt_ty_env = Env::new();
    let int_ty = base("Int");
    let nat_ty = base("Nat");
    let float_ty = base("Float");

    assert!(must_subtype(&int_ty, &int_ty, &mt_ty_env).is_ok());

    assert_eq!(
        must_subtype(&float_ty, &int_ty, &mt_ty_env),
        Err(TyErr::Mismatch(float_ty.dup(), int_ty.dup()))
    );

    let id_fn_ty = poly(vec!["t"], func(vec![vr("t")], vr("t")));
    let int_to_int_fn_ty = func(vec![int_ty.dup()], int_ty.dup());

    assert!(must_subtype(&int_to_int_fn_ty, &int_to_int_fn_ty, &mt_ty_env).is_ok());
    assert!(must_subtype(&id_fn_ty, &id_fn_ty, &mt_ty_env).is_ok());

    // actually subtype interestingly!
    assert!(must_subtype(&int_to_int_fn_ty, &id_fn_ty, &mt_ty_env).is_ok());

    assert!(matches!(
        must_subtype(&id_fn_ty, &int_to_int_fn_ty, &mt_ty_env),
        Err(TyErr::Mismatch(_, _))
    ));

    let parametric_ty_env = env_of(vec![
        ("some_int", base("Int")),
        (
            "convert_to_nat",
            poly(vec!["t"], func(vec![vr("t")], nat_ty.dup())),
        ),
        ("identity", id_fn_ty.dup()),
        ("int_to_int", int_to_int_fn_ty.dup()),
    ]);

    assert!(must_subtype(&vr("int_to_int"), &vr("identity"), &parametric_ty_env).is_ok());
    assert!(matches!(
        must_subtype(&vr("identity"), &vr("int_to_int"), &parametric_ty_env),
        Err(TyErr::Mismatch(_, _))
    ));

    // A function type with an underspecified return type: a fresh placeholder
    // each time.
    let mut gensym = UnifStore::new();
    let incomplete_1 = func(
        vec![base("Int")],
        gensym.underspecified("<return_type>"),
    );
    let incomplete_2 = func(
        vec![base("Int")],
        gensym.underspecified("<return_type>"),
    );

    assert!(must_subtype(&incomplete_1, &int_to_int_fn_ty, &mt_ty_env).is_ok());
    assert!(must_subtype(&incomplete_2, &id_fn_ty, &mt_ty_env).is_ok());
}

#[test]
fn struct_subtyping() {
    // Trivial struct subtyping:
    assert!(must_subtype(
        &strukt(vec![("a", base("Int")), ("b", base("Nat"))]),
        &strukt(vec![("a", base("Int")), ("b", base("Nat"))]),
        &Env::new()
    )
    .is_ok());

    // Add a component:
    assert!(must_subtype(
        &strukt(vec![("a", base("Int")), ("b", base("Nat"))]),
        &strukt(vec![("a", base("Int")), ("b", base("Nat")), ("c", base("Float"))]),
        &Env::new()
    )
    .is_ok());

    // Reorder components:
    assert!(must_subtype(
        &strukt(vec![("a", base("Int")), ("b", base("Nat"))]),
        &strukt(vec![("b", base("Nat")), ("a", base("Int"))]),
        &Env::new()
    )
    .is_ok());

    // Scramble:
    assert!(must_subtype(
        &strukt(vec![("a", base("Int")), ("b", base("Nat"))]),
        &strukt(vec![("b", base("Int")), ("a", base("Int"))]),
        &Env::new()
    )
    .is_err());
}

#[test]
fn subtype_different_mus() {
    // testing the Amber rule:
    // These types are non-contractive, but it doesn't matter for subtyping
    // purposes.
    let jane_author = mu(
        vec!["CharlotteBrontë"],
        func(vec![base("Float")], vr("CharlotteBrontë")),
    );
    let jane_psuedonym = mu(
        vec!["CurrerBell"],
        func(vec![base("Float")], vr("CurrerBell")),
    );
    let wuthering_author = mu(
        vec!["EmilyBrontë"],
        func(vec![base("Int")], vr("EmilyBrontë")),
    );
    let mu_env = env_of(vec![
        ("CharlotteBrontë", jane_author.dup()),
        ("CurrerBell", jane_psuedonym.dup()),
        ("EmilyBrontë", wuthering_author.dup()),
    ]);

    assert!(must_subtype(&jane_author, &jane_author, &mu_env).is_ok());
    assert!(must_subtype(&jane_author, &jane_psuedonym, &mu_env).is_ok());
    assert!(must_subtype(&jane_author, &wuthering_author, &mu_env).is_err());
}
