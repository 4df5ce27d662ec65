//! Properties of the configuration operations that span several calls.
use crate::config::{
    names_of, other_than, renamer, template_put, template_removed, template_renamed, UserConfig,
};
use crate::order::{
    absent_from, is_normal_user_order, lemma_filter_facts, lemma_normal_template_order,
    lemma_normal_template_order_id, lemma_normal_user_order_id, lemma_normal_user_order_lists,
    lists_exactly, normal_stamps, normal_template_order,
};
use vstd::prelude::*;

verus! {

/// Normalizing yields a normalized configuration: every template is listed
/// once in the order and has exactly one stamp.
pub proof fn law_normalize_establishes(new: UserConfig, old: UserConfig)
    requires
        old.templates.wf(),
        new.normalized_from(&old),
    ensures
        new.is_normalized(),
{
    old.templates.lemma_names();
    lemma_normal_template_order(old.order_names(), old.templates.names());
    assert(normal_stamps(
        old.template_updated_at.contents(),
        old.templates.contents().dom(),
    ).dom() =~= old.templates.contents().dom());
}

/// Normalizing an already normalized configuration changes nothing that
/// can be observed: same templates, same order, same stamps.
pub proof fn law_normalize_idempotent(new: UserConfig, old: UserConfig)
    requires
        old.templates.wf(),
        old.is_normalized(),
        new.normalized_from(&old),
    ensures
        new.same_settings(&old),
        new.templates == old.templates,
        new.order_names() == old.order_names(),
        new.template_updated_at.contents() == old.template_updated_at.contents(),
{
    old.templates.lemma_names();
    lemma_normal_template_order_id(old.order_names(), old.templates.names());
    assert(normal_stamps(old.template_updated_at.contents(), old.templates.contents().dom())
        =~= old.template_updated_at.contents());
}

/// What a store writes, a read gives back: the template and its stamp.
pub proof fn law_put_then_read(new: UserConfig, old: UserConfig, name: Seq<char>, t: crate::config::TemplateConfig, now: u64)
    requires
        template_put(&new, &old, name, t, now),
    ensures
        new.templates.contents().contains_key(name),
        new.templates.contents()[name] == t,
        new.template_updated_at.contents()[name] == now,
        new.order_names().contains(name),
{
    assert(new.templates.contents().dom().contains(name));
    assert(new.order_names().to_set().contains(name));
}

/// Storing a template under a new name in a normalized configuration
/// appends the name to the entries and to the order, and stamps it.
proof fn lemma_put_new(old: UserConfig, mid: UserConfig, name: Seq<char>, t: crate::config::TemplateConfig, now: u64)
    requires
        old.templates.wf(),
        old.is_normalized(),
        !old.templates.contents().contains_key(name),
        template_put(&mid, &old, name, t, now),
    ensures
        mid.templates.names() == old.templates.names().push(name),
        mid.order_names() == old.order_names().push(name),
        mid.template_updated_at.contents() == old.template_updated_at.contents().insert(name, now),
        mid.templates.contents() == old.templates.contents().insert(name, t),
        !old.templates.names().contains(name),
        !old.order_names().contains(name),
{
    old.templates.lemma_names();
    let names0 = old.templates.names();
    let order0 = old.order_names();
    assert(!names0.contains(name));
    assert(!order0.contains(name)) by {
        if order0.contains(name) {
            assert(order0.to_set().contains(name));
        }
    }
    let names1 = names0.push(name);
    crate::named_map::lemma_push_distinct(names0, name);
    crate::named_map::lemma_push_distinct(order0, name);
    assert(order0.push(name).to_set() =~= names1.to_set()) by {
        assert forall|x: Seq<char>|
            order0.push(name).to_set().contains(x) <==> names1.to_set().contains(x) by {
            lemma_push_contains(order0, name, x);
            lemma_push_contains(names0, name, x);
            assert(order0.to_set().contains(x) <==> names0.to_set().contains(x));
        }
    }
    lemma_normal_template_order_id(order0.push(name), names1);
    assert(mid.template_updated_at.contents() =~= old.template_updated_at.contents().insert(
        name,
        now,
    ));
}

/// Deleting the last-added name of a configuration whose order ends with it.
proof fn lemma_delete_last(
    mid: UserConfig,
    new: UserConfig,
    names0: Seq<Seq<char>>,
    order0: Seq<Seq<char>>,
    name: Seq<char>,
)
    requires
        mid.templates.names() == names0.push(name),
        mid.order_names() == order0.push(name),
        !names0.contains(name),
        !order0.contains(name),
        lists_exactly(order0, names0.to_set()),
        mid.templates.contents().contains_key(name),
        template_removed(&new, &mid, name),
    ensures
        new.templates.names() == names0,
        new.order_names() == order0,
        new.templates.contents() == mid.templates.contents().remove(name),
        new.template_updated_at.contents() == normal_stamps(
            mid.template_updated_at.contents().remove(name),
            new.templates.contents().dom(),
        ),
{
    let names1 = names0.push(name);
    assert(names1.remove(names1.index_of(name)) == names0) by {
        let i = names1.index_of(name);
        assert(names1[names0.len() as int] == name);
        assert(names1.contains(name));
        if i < names0.len() {
            assert(names0[i] == name);
        }
        assert(names1.remove(names0.len() as int) =~= names0);
    }
    assert(order0.push(name).filter(other_than(name)) == order0) by {
        crate::order::lemma_filter_push(order0, name, other_than(name));
        crate::order::lemma_filter_all(order0, other_than(name));
    }
    assert(normal_template_order(order0, names0) == order0) by {
        lemma_normal_template_order_id(order0, names0);
    }
}

/// Storing a new template and then deleting it gives back the templates,
/// the template order and the stamps of a normalized configuration.
pub proof fn law_put_then_delete_restores(
    old: UserConfig,
    mid: UserConfig,
    new: UserConfig,
    name: Seq<char>,
    t: crate::config::TemplateConfig,
    now: u64,
)
    requires
        old.templates.wf(),
        old.is_normalized(),
        !old.templates.contents().contains_key(name),
        template_put(&mid, &old, name, t, now),
        template_removed(&new, &mid, name),
    ensures
        new.templates.contents() == old.templates.contents(),
        new.templates.names() == old.templates.names(),
        new.order_names() == old.order_names(),
        new.template_updated_at.contents() == old.template_updated_at.contents(),
        new.same_settings(&old),
{
    old.templates.lemma_names();
    lemma_put_new(old, mid, name, t, now);
    lemma_delete_last(mid, new, old.templates.names(), old.order_names(), name);
    assert(new.templates.contents() =~= old.templates.contents());
    assert(new.template_updated_at.contents() =~= old.template_updated_at.contents());
}

/// Renaming inside a duplicate-free listing of `set` that contains `a` but
/// not `b` lists `set` with `a` replaced by `b`.
proof fn lemma_rename_listing(s: Seq<Seq<char>>, set: Set<Seq<char>>, a: Seq<char>, b: Seq<char>)
    requires
        lists_exactly(s, set),
        set.contains(a),
        !set.contains(b),
    ensures
        lists_exactly(s.map_values(renamer(a, b)), set.remove(a).insert(b)),
        s.map_values(renamer(a, b)).map_values(renamer(b, a)) == s,
{
    let f = renamer(a, b);
    let m = s.map_values(f);
    assert forall|i: int| 0 <= i < s.len() implies s[i] != b by {
        assert(s.to_set().contains(s[i]));
    }
    assert forall|i: int, j: int| 0 <= i < m.len() && 0 <= j < m.len() && i != j implies m[i]
        != m[j] by {
        assert(s[i] != s[j]);
    }
    assert(m.to_set() =~= set.remove(a).insert(b)) by {
        assert forall|x: Seq<char>| m.to_set().contains(x) <==> set.remove(a).insert(b).contains(x) by {
            if m.contains(x) {
                let i = m.index_of(x);
                assert(s.to_set().contains(s[i]));
            }
            if set.contains(x) && x != a {
                assert(s.to_set().contains(x));
                let i = s.index_of(x);
                assert(m[i] == x);
            }
            if x == b {
                assert(s.to_set().contains(a));
                let i = s.index_of(a);
                assert(m[i] == b);
            }
        }
    }
    assert(m.map_values(renamer(b, a)) =~= s);
}

/// A duplicate-free sequence without its element `a` is the set without `a`.
proof fn lemma_remove_to_set(s: Seq<Seq<char>>, a: Seq<char>)
    requires
        s.no_duplicates(),
        s.contains(a),
    ensures
        s.remove(s.index_of(a)).to_set() == s.to_set().remove(a),
{
    let i = s.index_of(a);
    let r = s.remove(i);
    assert(r.to_set() =~= s.to_set().remove(a)) by {
        assert forall|x: Seq<char>| r.to_set().contains(x) <==> s.to_set().remove(a).contains(x) by {
            if r.contains(x) {
                let k = r.index_of(x);
                if k < i {
                    assert(s[k] == x);
                    assert(k != i);
                } else {
                    assert(s[k + 1] == x);
                }
            }
            if s.contains(x) && x != a {
                let k = s.index_of(x);
                if k < i {
                    assert(r[k] == x);
                } else {
                    assert(k != i);
                    assert(r[k - 1] == x);
                }
            }
        }
    }
}

/// Renaming a template and renaming it back gives back the templates, the
/// template order and the stamps of a normalized configuration.
pub proof fn law_rename_roundtrip(
    old: UserConfig,
    mid: UserConfig,
    new: UserConfig,
    a: Seq<char>,
    b: Seq<char>,
)
    requires
        old.templates.wf(),
        old.is_normalized(),
        old.templates.contents().contains_key(a),
        !old.templates.contents().contains_key(b),
        template_renamed(&mid, &old, a, b),
        template_renamed(&new, &mid, b, a),
    ensures
        new.templates.contents() == old.templates.contents(),
        new.order_names() == old.order_names(),
        new.template_updated_at.contents() == old.template_updated_at.contents(),
        new.same_settings(&old),
{
    old.templates.lemma_names();
    let dom = old.templates.contents().dom();
    let names0 = old.templates.names();
    let order0 = old.order_names();
    assert(names0.contains(a));
    // first rename
    let names1 = mid.templates.names();
    assert(names1.to_set() == dom.remove(a).insert(b)) by {
        lemma_remove_to_set(names0, a);
        names0.remove(names0.index_of(a)).lemma_push_to_set_commute(b);
    }
    let order1 = order0.map_values(renamer(a, b));
    lemma_rename_listing(order0, dom, a, b);
    lemma_normal_template_order_id(order1, names1);
    assert(mid.order_names() == order1);
    let st0 = old.template_updated_at.contents();
    assert(st0.contains_key(a));
    let st1 = st0.remove(a).insert(b, st0[a]);
    assert(mid.template_updated_at.contents() == st1) by {
        assert(normal_stamps(st1, mid.templates.contents().dom()) =~= st1);
    }
    // renaming back
    assert(mid.templates.contents().contains_key(b));
    assert(names1.contains(b)) by {
        assert(names1.to_set().contains(b));
    }
    let names2 = new.templates.names();
    assert(names2.to_set() == dom) by {
        assert(mid.templates.names() == names1);
        assert(names0.remove(names0.index_of(a)).push(b) == names1);
        crate::named_map::lemma_remove_distinct(names0, names0.index_of(a));
        assert(!names0.remove(names0.index_of(a)).contains(b)) by {
            lemma_remove_to_set(names0, a);
            if names0.remove(names0.index_of(a)).contains(b) {
                assert(names0.remove(names0.index_of(a)).to_set().contains(b));
            }
        }
        crate::named_map::lemma_push_distinct(names0.remove(names0.index_of(a)), b);
        lemma_remove_to_set(names1, b);
        names1.remove(names1.index_of(b)).lemma_push_to_set_commute(a);
        assert(dom.remove(a).insert(b).remove(b).insert(a) =~= dom);
    }
    lemma_normal_template_order_id(order0, names2);
    assert(new.templates.contents() =~= old.templates.contents());
    assert(new.template_updated_at.contents() =~= st0) by {
        assert(st1.remove(b).insert(a, st1[b]) =~= st0);
    }
}

proof fn lemma_push_contains<A>(s: Seq<A>, a: A, x: A)
    ensures
        s.push(a).contains(x) <==> (s.contains(x) || x == a),
{
    if s.push(a).contains(x) {
        let i = s.push(a).index_of(x);
        if i < s.len() {
            assert(s[i] == x);
        }
    }
    if s.contains(x) {
        let i = s.index_of(x);
        assert(s.push(a)[i] == x);
    }
    if x == a {
        assert(s.push(a)[s.len() as int] == x);
    }
}

/// A normalized user order lists every configured user exactly once.
pub proof fn law_user_order_lists_users(result: Seq<u64>, order: Seq<u64>, users: Set<u64>)
    requires
        is_normal_user_order(result, order, users),
    ensures
        lists_exactly(result, users),
{
    lemma_normal_user_order_lists(result, order, users);
}

/// Saving an order that already lists every user exactly once keeps it as
/// given.
pub proof fn law_user_order_kept(result: Seq<u64>, order: Seq<u64>, users: Set<u64>)
    requires
        lists_exactly(order, users),
        is_normal_user_order(result, order, users),
    ensures
        result == order,
{
    lemma_normal_user_order_id(order, users);
}

/// After removing a user, the user is neither configured nor listed.
pub proof fn law_removed_user_gone(order: Seq<u64>, uid: u64)
    ensures
        !order.filter(|y: u64| y != uid).contains(uid),
{
    lemma_filter_facts(order, |y: u64| y != uid);
}

} // verus!
