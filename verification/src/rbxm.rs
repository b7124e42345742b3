//! A model of the scene-graph instance tree that the backend searches for
//! script sources. The binary deserializer lives outside the library; its
//! tree is converted into this one, which keeps exactly what the search
//! reads: each instance's name, its class name, its source property, and its
//! children.

use vstd::prelude::*;

use crate::utils::{push_char, str_eq};

verus! {

/// The state of an instance's source property.
#[derive(Debug)]
pub enum SourceProperty {
    /// The instance has no source property at all.
    Missing,
    /// The property is present but holds no text.
    NotText,
    /// The property holds this text.
    Text(String),
}

impl Clone for SourceProperty {
    fn clone(&self) -> (r: Self)
        ensures
            r == *self,
    {
        match self {
            SourceProperty::Missing => SourceProperty::Missing,
            SourceProperty::NotText => SourceProperty::NotText,
            SourceProperty::Text(s) => SourceProperty::Text(s.clone()),
        }
    }
}

/// One instance of the scene graph, as the search sees it.
#[derive(Debug)]
pub struct InstanceNode {
    pub name: String,
    pub class: String,
    pub source: SourceProperty,
    pub children: Vec<InstanceNode>,
}

/// Whether `c` is one of the listed class names.
pub open spec fn class_matches(classes: Seq<Seq<char>>, c: Seq<char>) -> bool {
    exists|i: int| 0 <= i < classes.len() && classes[i] == c
}

/// Ancestor names joined with a dot.
pub open spec fn joined(names: Seq<Seq<char>>) -> Seq<char>
    decreases names.len(),
{
    if names.len() == 0 {
        Seq::empty()
    } else if names.len() == 1 {
        names[0]
    } else {
        joined(names.drop_last()) + seq!['.'] + names.last()
    }
}

/// What the search records for one child whose parent path is `path`: the
/// child itself when its class matches, keyed by the dot-joined path of its
/// ancestors, followed by whatever its own subtree holds.
pub open spec fn child_entries(
    k: InstanceNode,
    path: Seq<Seq<char>>,
    classes: Seq<Seq<char>>,
) -> Seq<(Seq<char>, SourceProperty)>
    decreases k, 1int,
{
    (if class_matches(classes, k.class@) {
        seq![(joined(path), k.source)]
    } else {
        Seq::empty()
    }) + subtree_entries(k, path, classes)
}

/// What the search records below an instance: its children's entries, under
/// the path extended with the instance's own name.
pub open spec fn subtree_entries(
    node: InstanceNode,
    path: Seq<Seq<char>>,
    classes: Seq<Seq<char>>,
) -> Seq<(Seq<char>, SourceProperty)>
    decreases node, 0int,
{
    children_entries(node.children@, path.push(node.name@), classes)
}

/// What the search records for a run of siblings, depth-first.
pub open spec fn children_entries(
    kids: Seq<InstanceNode>,
    path: Seq<Seq<char>>,
    classes: Seq<Seq<char>>,
) -> Seq<(Seq<char>, SourceProperty)>
    decreases kids, 0int,
{
    if kids.len() == 0 {
        Seq::empty()
    } else {
        children_entries(kids.drop_last(), path, classes) + child_entries(
            kids.last(),
            path,
            classes,
        )
    }
}

/// The view of collected entries: each path string as its characters.
pub open spec fn entries_view(s: Seq<(String, SourceProperty)>) -> Seq<(Seq<char>, SourceProperty)> {
    s.map_values(|p: (String, SourceProperty)| (p.0@, p.1))
}

/// True exactly when `c` is one of the listed class names.
fn contains_str(classes: &Vec<String>, c: &str) -> (r: bool)
    ensures
        r == class_matches(classes.deep_view(), c@),
{
    let n = classes.len();
    let mut i: usize = 0;
    while i < n
        invariant
            i <= n,
            n == classes@.len(),
            classes.deep_view().len() == classes@.len(),
            forall|j: int| 0 <= j < classes@.len() ==> classes.deep_view()[j] == classes@[j]@,
            forall|j: int| 0 <= j < i ==> classes@[j]@ != c@,
        decreases n - i,
    {
        if str_eq(classes[i].as_str(), c) {
            proof {
                assert(classes.deep_view()[i as int] == c@);
            }
            return true;
        }
        i += 1;
    }
    false
}

/// The ancestor names joined with a dot, in order.
fn join_names(names: &Vec<String>) -> (r: String)
    ensures
        r@ == joined(names.deep_view()),
{
    let n = names.len();
    let mut out = String::new();
    let mut i: usize = 0;
    while i < n
        invariant
            i <= n,
            n == names@.len(),
            names.deep_view().len() == names@.len(),
            forall|j: int| 0 <= j < names@.len() ==> names.deep_view()[j] == names@[j]@,
            out@ == joined(names.deep_view().take(i as int)),
        decreases n - i,
    {
        if i > 0 {
            push_char(&mut out, '.');
        }
        out.append(names[i].as_str());
        proof {
            let dv = names.deep_view();
            assert(dv.take(i as int + 1).drop_last() =~= dv.take(i as int));
            assert(dv.take(i as int + 1).last() == dv[i as int]);
            if i == 0 {
                assert(out@ =~= joined(dv.take(1)));
            } else {
                assert(out@ =~= joined(dv.take(i as int)) + seq!['.'] + dv[i as int]);
            }
        }
        i += 1;
    }
    proof {
        assert(names.deep_view().take(n as int) =~= names.deep_view());
    }
    out
}

/// Walks the children of the instance whose ancestor path (itself included)
/// is `path`, appending to `found` every descendant whose class matches:
/// first the child itself where it matches, then its subtree, child by child.
fn search_children(
    kids: &Vec<InstanceNode>,
    classnames: &Vec<String>,
    path: &mut Vec<String>,
    found: &mut Vec<(String, SourceProperty)>,
)
    ensures
        final(path)@ == old(path)@,
        entries_view(final(found)@) == entries_view(old(found)@) + children_entries(
            kids@,
            old(path).deep_view(),
            classnames.deep_view(),
        ),
    decreases kids@,
{
    let n = kids.len();
    let mut i: usize = 0;
    while i < n
        invariant
            i <= n,
            n == kids@.len(),
            path@ == old(path)@,
            entries_view(found@) == entries_view(old(found)@) + children_entries(
                kids@.take(i as int),
                old(path).deep_view(),
                classnames.deep_view(),
            ),
        decreases n - i,
    {
        let ghost pre = found@;
        let ghost child_spec = kids@[i as int];
        let ghost dpath = old(path).deep_view();
        let ghost dclasses = classnames.deep_view();
        let child = &kids[i];
        if contains_str(classnames, child.class.as_str()) {
            let key = join_names(path);
            found.push((key, child.source.clone()));
            proof {
                assert(entries_view(found@) =~= entries_view(pre) + seq![
                    (joined(dpath), child_spec.source),
                ]);
            }
        }
        let ghost mid = found@;
        path.push(child.name.clone());
        proof {
            assert(path.deep_view() =~= dpath.push(child_spec.name@));
            assert(kids@[i as int] == *child);
            assert(decreases_to!(kids@ => kids@[i as int]));
            assert(decreases_to!(*child => child.children));
            assert(decreases_to!(child.children => child.children@));
        }
        search_children(&child.children, classnames, path, found);
        let _popped = path.pop();
        proof {
            assert(path@ =~= old(path)@);
            assert(entries_view(found@) =~= entries_view(mid) + subtree_entries(
                child_spec,
                dpath,
                dclasses,
            ));
            assert(entries_view(found@) =~= entries_view(pre) + child_entries(
                child_spec,
                dpath,
                dclasses,
            ));
            assert(kids@.take(i as int + 1).drop_last() =~= kids@.take(i as int));
            assert(kids@.take(i as int + 1).last() == child_spec);
        }
        i += 1;
    }
    proof {
        assert(kids@.take(n as int) =~= kids@);
    }
}

/// The found scripts once sources are read: `None` when a found instance has
/// no source property at all (the search cannot answer for it); an instance
/// whose property holds no text is passed over; the rest keep their path and
/// text, in order.
pub open spec fn extracted(pairs: Seq<(Seq<char>, SourceProperty)>) -> Option<
    Seq<(Seq<char>, Seq<char>)>,
>
    decreases pairs.len(),
{
    if pairs.len() == 0 {
        Some(Seq::empty())
    } else {
        match extracted(pairs.drop_last()) {
            None => None,
            Some(rest) => match pairs.last().1 {
                SourceProperty::Missing => None,
                SourceProperty::NotText => Some(rest),
                SourceProperty::Text(s) => Some(rest.push((pairs.last().0, s@))),
            },
        }
    }
}

/// The view of extracted scripts: each string as its characters.
pub open spec fn scripts_view(s: Seq<(String, String)>) -> Seq<(Seq<char>, Seq<char>)> {
    s.map_values(|p: (String, String)| (p.0@, p.1@))
}

/// What the search records over a forest of root instances: each root's
/// subtree in turn, every path starting at that root (the roots themselves
/// are never recorded).
pub open spec fn roots_entries(roots: Seq<InstanceNode>, classes: Seq<Seq<char>>) -> Seq<
    (Seq<char>, SourceProperty),
>
    decreases roots,
{
    if roots.len() == 0 {
        Seq::empty()
    } else {
        roots_entries(roots.drop_last(), classes) + subtree_entries(
            roots.last(),
            Seq::empty(),
            classes,
        )
    }
}

/// The class names whose instances carry scripts.
pub open spec fn script_classes() -> Seq<Seq<char>> {
    seq!["Script"@, "LocalScript"@, "ModuleScript"@]
}

/// Finds every script under the given root instances: depth-first, each
/// script's dot-joined ancestor path (from the root down to its parent) and
/// its source text. Returns `None` when some found script has no source
/// property at all; scripts whose property holds no text are passed over.
pub fn dom_find_scripts(roots: &Vec<InstanceNode>) -> (r: Option<Vec<(String, String)>>)
    ensures
        match r {
            Some(scripts) => extracted(roots_entries(roots@, script_classes())) == Some(
                scripts_view(scripts@),
            ),
            None => extracted(roots_entries(roots@, script_classes())) is None,
        },
{
    let mut classnames: Vec<String> = Vec::new();
    classnames.push("Script".to_owned());
    classnames.push("LocalScript".to_owned());
    classnames.push("ModuleScript".to_owned());
    proof {
        assert(classnames.deep_view() =~= script_classes());
    }
    let mut path: Vec<String> = Vec::new();
    let mut found: Vec<(String, SourceProperty)> = Vec::new();
    let n = roots.len();
    let mut i: usize = 0;
    while i < n
        invariant
            i <= n,
            n == roots@.len(),
            path@.len() == 0,
            classnames.deep_view() == script_classes(),
            entries_view(found@) == roots_entries(roots@.take(i as int), script_classes()),
        decreases n - i,
    {
        let ghost pre = found@;
        let ghost root_spec = roots@[i as int];
        let root = &roots[i];
        path.push(root.name.clone());
        proof {
            assert(path.deep_view() =~= Seq::<Seq<char>>::empty().push(root_spec.name@));
        }
        search_children(&root.children, &classnames, &mut path, &mut found);
        let _popped = path.pop();
        proof {
            assert(path@ =~= Seq::<String>::empty());
            assert(entries_view(found@) =~= pre.map_values(
                |p: (String, SourceProperty)| (p.0@, p.1),
            ) + subtree_entries(root_spec, Seq::empty(), script_classes()));
            assert(roots@.take(i as int + 1).drop_last() =~= roots@.take(i as int));
            assert(roots@.take(i as int + 1).last() == root_spec);
        }
        i += 1;
    }
    proof {
        assert(roots@.take(n as int) =~= roots@);
    }
    let m = found.len();
    let mut scripts: Vec<(String, String)> = Vec::new();
    let mut j: usize = 0;
    while j < m
        invariant
            j <= m,
            m == found@.len(),
            entries_view(found@) == roots_entries(roots@, script_classes()),
            extracted(entries_view(found@).take(j as int)) == Some(scripts_view(scripts@)),
        decreases m - j,
    {
        let ghost pre = scripts@;
        let ghost ev = entries_view(found@);
        proof {
            assert(ev.take(j as int + 1).drop_last() =~= ev.take(j as int));
            assert(ev.take(j as int + 1).last() == ev[j as int]);
        }
        let entry = &found[j];
        match &entry.1 {
            SourceProperty::Missing => {
                proof {
                    lemma_extracted_prefix_none(ev, j as int + 1);
                }
                return None;
            },
            SourceProperty::NotText => {},
            SourceProperty::Text(s) => {
                scripts.push((entry.0.clone(), s.clone()));
                proof {
                    assert(scripts_view(scripts@) =~= scripts_view(pre).push(
                        (ev[j as int].0, ev[j as int].1->Text_0@),
                    ));
                }
            },
        }
        j += 1;
    }
    proof {
        assert(entries_view(found@).take(m as int) =~= entries_view(found@));
    }
    Some(scripts)
}

/// Once a prefix of the entries fails to extract, the whole run fails.
proof fn lemma_extracted_prefix_none(pairs: Seq<(Seq<char>, SourceProperty)>, i: int)
    requires
        0 <= i <= pairs.len(),
        extracted(pairs.take(i)) is None,
    ensures
        extracted(pairs) is None,
    decreases pairs.len() - i,
{
    if i == pairs.len() {
        assert(pairs.take(i) =~= pairs);
    } else {
        assert(pairs.take(i + 1).drop_last() =~= pairs.take(i));
        lemma_extracted_prefix_none(pairs, i + 1);
    }
}

} // verus!
