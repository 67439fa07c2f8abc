use ty_compare::canonicalize;
use ty_compare::is_subtype;
use ty_compare::resolve;
use ty_compare::Clo;
use ty_compare::Env;
use ty_compare::Name;
use ty_compare::Ty;
use ty_compare::UnifStore;

fn n(s: &str) -> Name {
    Name::Src(String::from(s))
}

fn base(s: &str) -> Ty {
    Ty::Base(n(s))
}

fn vr(s: &str) -> Ty {
    Ty::Var(n(s))
}

fn poly(params: Vec<&str>, body: Ty) -> Ty {
    Ty::Forall { params: params.into_iter().map(n).collect(), body: Box::new(body) }
}

fn mu(params: Vec<&str>, body: Ty) -> Ty {
    Ty::Mu { params: params.into_iter().map(n).collect(), body: Box::new(body) }
}

fn tapp(rator: Ty, args: Vec<Ty>) -> Ty {
    Ty::Apply { rator: Box::new(rator), args }
}

fn enum_ty(arms: Vec<(&str, Vec<Ty>)>) -> Ty {
    Ty::Enum(arms.into_iter().map(|(s, c)| (n(s), c)).collect())
}

fn env_of(pairs: Vec<(&str, Ty)>) -> Env {
    let mut e = Env::new();
    for (s, t) in pairs {
        e = e.set(n(s), t);
    }
    e
}

#[test]
fn basic_resolve() {
    let ud0 = Ty::Undet(n("a⚁99"));

    let list_ty = poly(
        vec!["Datum"],
        mu(
            vec!["List"],
            enum_ty(vec![
                ("Nil", vec![]),
                ("Cons", vec![vr("Datum"), tapp(vr("List"), vec![ud0.dup()])]),
            ]),
        ),
    );
    let t_env = env_of(vec![("List", list_ty.dup())]);

    let unif = UnifStore::new();

    assert_eq!(
        resolve(Clo { it: base("Int"), env: t_env.dup() }, &unif).unwrap().it,
        base("Int")
    );

    assert_eq!(
        resolve(
            Clo { it: tapp(vr("List"), vec![ud0.dup()]), env: t_env.dup() },
            &unif
        )
        .unwrap()
        .it,
        mu(
            vec!["List"],
            enum_ty(vec![
                ("Nil", vec![]),
                ("Cons", vec![ud0.dup(), tapp(vr("List"), vec![ud0.dup()])]),
            ]),
        )
    );
}

#[test]
fn placeholder_merge_resolves_alike() {
    // Merging two underdetermined types makes both ids resolve to the same
    // term afterwards.
    let mut st = UnifStore::new();
    let a = st.underspecified("one");
    let b = st.underspecified("other");
    let env = Env::new();

    assert!(is_subtype(&a, &b, &env, &mut st).is_ok());

    let ra = resolve(Clo { it: a.dup(), env: env.dup() }, &st).unwrap();
    let rb = resolve(Clo { it: b.dup(), env: env.dup() }, &st).unwrap();
    assert_eq!(ra.it, rb.it);
}

#[test]
fn canonicalize_expands_application() {
    let list_ty = poly(
        vec!["Datum"],
        mu(
            vec!["List"],
            enum_ty(vec![
                ("Nil", vec![]),
                ("Cons", vec![vr("Datum"), tapp(vr("List"), vec![vr("Datum")])]),
            ]),
        ),
    );
    let env = env_of(vec![("List", list_ty.dup())]);

    let expanded = canonicalize(&tapp(vr("List"), vec![base("Int")]), &env, &UnifStore::new());
    assert_eq!(
        expanded,
        Ok(mu(
            vec!["List"],
            enum_ty(vec![
                ("Nil", vec![]),
                ("Cons", vec![base("Int"), tapp(vr("List"), vec![base("Int")])]),
            ]),
        ))
    );
}

#[test]
fn canonicalize_is_idempotent() {
    // Canonicalizing a canonical form changes nothing.
    let list_ty = poly(
        vec!["Datum"],
        mu(
            vec!["List"],
            enum_ty(vec![
                ("Nil", vec![]),
                ("Cons", vec![vr("Datum"), tapp(vr("List"), vec![vr("Datum")])]),
            ]),
        ),
    );
    let env = env_of(vec![("List", list_ty.dup()), ("Shortcut", tapp(vr("List"), vec![base("Int")]))]);
    let st = UnifStore::new();

    let once = canonicalize(&vr("Shortcut"), &env, &st).unwrap();
    let twice = canonicalize(&once, &env, &st).unwrap();
    assert_eq!(once, twice);
}
