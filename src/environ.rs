//! The effective environment of a child: the ambient environment with the
//! overrides of its specification applied.
use vstd::prelude::*;

verus! {

/// An environment as name and value bytes.
pub open spec fn env_view(e: Seq<(Vec<u8>, Vec<u8>)>) -> Seq<(Seq<u8>, Seq<u8>)> {
    e.map_values(|p: (Vec<u8>, Vec<u8>)| (p.0@, p.1@))
}

/// Whether `overrides` sets the variable `name`.
pub open spec fn overridden(name: Seq<u8>, overrides: Seq<(Seq<u8>, Seq<u8>)>) -> bool {
    exists|i: int| 0 <= i < overrides.len() && overrides[i].0 == name
}

/// Whether an ambient entry survives `overrides`.
pub open spec fn kept(overrides: Seq<(Seq<u8>, Seq<u8>)>) -> spec_fn((Seq<u8>, Seq<u8>)) -> bool {
    |e: (Seq<u8>, Seq<u8>)| !overridden(e.0, overrides)
}

/// The ambient entries that no override replaces, in their order, then the
/// overrides: a variable that both set takes the override's value.
pub open spec fn merged_env(
    ambient: Seq<(Seq<u8>, Seq<u8>)>,
    overrides: Seq<(Seq<u8>, Seq<u8>)>,
) -> Seq<(Seq<u8>, Seq<u8>)> {
    ambient.filter(kept(overrides)) + overrides
}

fn same_bytes(a: &Vec<u8>, b: &Vec<u8>) -> (r: bool)
    ensures
        r == (a@ == b@),
{
    if a.len() != b.len() {
        return false;
    }
    let mut i: usize = 0;
    while i < a.len()
        invariant
            i <= a@.len() == b@.len(),
            forall|j: int| 0 <= j < i ==> a@[j] == b@[j],
        decreases a@.len() - i,
    {
        if a[i] != b[i] {
            return false;
        }
        i = i + 1;
    }
    assert(a@ =~= b@);
    true
}

fn is_overridden(name: &Vec<u8>, overrides: &Vec<(Vec<u8>, Vec<u8>)>) -> (r: bool)
    ensures
        r == overridden(name@, env_view(overrides@)),
{
    let mut i: usize = 0;
    while i < overrides.len()
        invariant
            i <= overrides@.len(),
            forall|j: int| 0 <= j < i ==> overrides@[j].0@ != name@,
        decreases overrides@.len() - i,
    {
        if same_bytes(&overrides[i].0, name) {
            assert(env_view(overrides@)[i as int].0 == name@);
            return true;
        }
        i = i + 1;
    }
    assert forall|j: int| 0 <= j < env_view(overrides@).len() implies env_view(overrides@)[j].0 != name@ by {
        assert(env_view(overrides@)[j].0 == overrides@[j].0@);
    }
    false
}

/// Builds a child's environment from the ambient one and its overrides.
pub fn build(ambient: &Vec<(Vec<u8>, Vec<u8>)>, overrides: &Vec<(Vec<u8>, Vec<u8>)>) -> (r: Vec<
    (Vec<u8>, Vec<u8>),
>)
    ensures
        env_view(r@) == merged_env(env_view(ambient@), env_view(overrides@)),
{
    let ghost amb = env_view(ambient@);
    let ghost ov = env_view(overrides@);
    let mut r: Vec<(Vec<u8>, Vec<u8>)> = Vec::new();
    let mut i: usize = 0;
    reveal(Seq::filter);
    assert(amb.subrange(0, 0).filter(kept(ov)) =~= Seq::<(Seq<u8>, Seq<u8>)>::empty());
    while i < ambient.len()
        invariant
            i <= ambient@.len(),
            amb == env_view(ambient@),
            ov == env_view(overrides@),
            env_view(r@) == amb.subrange(0, i as int).filter(kept(ov)),
        decreases ambient@.len() - i,
    {
        let ghost prev = r@;
        let ghost s = amb.subrange(0, i + 1);
        assert(s.drop_last() =~= amb.subrange(0, i as int));
        assert(s.last() == (ambient@[i as int].0@, ambient@[i as int].1@));
        reveal(Seq::filter);
        assert(s.filter(kept(ov)) == (if kept(ov)(s.last()) {
            s.drop_last().filter(kept(ov)).push(s.last())
        } else {
            s.drop_last().filter(kept(ov))
        }));
        assert(kept(ov)(s.last()) == !overridden(ambient@[i as int].0@, ov));
        if !is_overridden(&ambient[i].0, overrides) {
            r.push((ambient[i].0.clone(), ambient[i].1.clone()));
            assert(env_view(r@) =~= env_view(prev).push(s.last()));
        } else {
            assert(env_view(r@) =~= env_view(prev));
        }
        i = i + 1;
    }
    assert(amb.subrange(0, ambient@.len() as int) =~= amb);
    let ghost filtered = env_view(r@);
    let mut j: usize = 0;
    while j < overrides.len()
        invariant
            j <= overrides@.len(),
            ov == env_view(overrides@),
            env_view(r@) == filtered + ov.subrange(0, j as int),
        decreases overrides@.len() - j,
    {
        let ghost prev = r@;
        r.push((overrides[j].0.clone(), overrides[j].1.clone()));
        assert(env_view(r@) =~= env_view(prev).push(ov[j as int]));
        assert(ov.subrange(0, j + 1) =~= ov.subrange(0, j as int).push(ov[j as int]));
        j = j + 1;
    }
    assert(ov.subrange(0, overrides@.len() as int) =~= ov);
    r
}

} // verus!
