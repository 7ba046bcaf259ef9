use vstd::prelude::*;
use crate::screens::strings;
use crate::text::same_text;

verus! {

/// A sprite of a scene layer, as the script's layer record keeps it.
pub struct SpriteRecord {
    pub target: String,
    /// The position the sprite was placed at, if any.
    pub position: Option<String>,
    /// The sprite's attributes (expression, outfit, ...).
    pub attrs: Vec<String>,
}

/// Maps an optional string to its view.
pub open spec fn opt_text(s: Option<String>) -> Option<Seq<char>> {
    match s {
        Some(t) => Some(t@),
        None => None,
    }
}

/// The first sprite of the layer with this target, if any.
pub open spec fn find_sprite(layer: Seq<SpriteRecord>, target: Seq<char>) -> Option<SpriteRecord>
    decreases layer.len(),
{
    if layer.len() == 0 {
        None
    } else if layer[0].target@ == target {
        Some(layer[0])
    } else {
        find_sprite(layer.drop_first(), target)
    }
}

/// The texts of `list` joined with `sep` between neighbours.
pub open spec fn join(list: Seq<Seq<char>>, sep: Seq<char>) -> Seq<char>
    decreases list.len(),
{
    if list.len() == 0 {
        Seq::empty()
    } else if list.len() == 1 {
        list[0]
    } else {
        join(list.drop_last(), sep) + sep + list.last()
    }
}

/// The background image of a sprite: its target, followed by `_` and its attributes joined
/// with `_` when it has any.
pub open spec fn background_of(target: Seq<char>, attrs: Seq<Seq<char>>) -> Seq<char> {
    if attrs.len() == 0 {
        target
    } else {
        target + "_"@ + join(attrs, "_"@)
    }
}

fn copy_strings(v: &Vec<String>) -> (r: Vec<String>)
    ensures
        strings(r@) == strings(v@),
{
    let mut r: Vec<String> = Vec::new();
    let n = v.len();
    let mut i: usize = 0;
    while i < n
        invariant
            n == v@.len(),
            i <= n,
            strings(r@) == strings(v@.take(i as int)),
        decreases n - i,
    {
        let ghost before = r@;
        r.push(v[i].clone());
        assert(strings(r@) =~= strings(before).push(v@[i as int]@));
        assert(strings(v@.take(i + 1)) =~= strings(v@.take(i as int)).push(v@[i as int]@));
        i = i + 1;
    }
    assert(v@.take(n as int) =~= v@);
    r
}

/// The position and attributes of the first sprite of the master layer with this target;
/// both are absent when there is no master layer or no such sprite.
pub fn sprite_info(master: Option<&Vec<SpriteRecord>>, target: &str) -> (r: (
    Option<String>,
    Option<Vec<String>>,
))
    ensures
        match master {
            Some(layer) => match find_sprite(layer@, target@) {
                Some(sp) => opt_text(r.0) == opt_text(sp.position) && (r.1 matches Some(a)
                    && strings(a@) == strings(sp.attrs@)),
                None => r.0 is None && r.1 is None,
            },
            None => r.0 is None && r.1 is None,
        },
{
    let layer = match master {
        Some(l) => l,
        None => return (None, None),
    };
    let n = layer.len();
    let mut i: usize = 0;
    assert(layer@.skip(0) =~= layer@);
    while i < n
        invariant
            n == layer@.len(),
            master == Some(layer),
            i <= n,
            find_sprite(layer@, target@) == find_sprite(layer@.skip(i as int), target@),
        decreases n - i,
    {
        let s = &layer[i];
        assert(layer@.skip(i as int)[0] == layer@[i as int]);
        if same_text(s.target.as_str(), target) {
            assert(find_sprite(layer@, target@) == Some(layer@[i as int]));
            let position = match &s.position {
                Some(p) => Some(p.clone()),
                None => None,
            };
            let attrs = copy_strings(&s.attrs);
            assert(opt_text(position) == opt_text(layer@[i as int].position));
            assert(strings(attrs@) == strings(layer@[i as int].attrs@));
            return (position, Some(attrs));
        }
        assert(layer@.skip(i as int).drop_first() =~= layer@.skip(i + 1));
        i = i + 1;
    }
    (None, None)
}

/// The strings of `list` joined with `sep`.
pub fn join_strings(list: &Vec<String>, sep: &str) -> (r: String)
    ensures
        r@ == join(strings(list@), sep@),
{
    let mut r = String::new();
    let n = list.len();
    let mut i: usize = 0;
    while i < n
        invariant
            n == list@.len(),
            i <= n,
            r@ == join(strings(list@.take(i as int)), sep@),
        decreases n - i,
    {
        let ghost before = strings(list@.take(i as int));
        if i > 0 {
            r.append(sep);
        }
        r.append(list[i].as_str());
        assert(strings(list@.take(i + 1)).drop_last() =~= before);
        assert(strings(list@.take(i + 1)).last() == list@[i as int]@);
        if i == 0 {
            assert(strings(list@.take(1))[0] == list@[0]@);
        }
        i = i + 1;
    }
    assert(list@.take(n as int) =~= list@);
    r
}

/// The background name of a new scene: from the first sprite of the master layer; none
/// when there is no master layer or it is empty.
pub fn background_name(master: Option<&Vec<SpriteRecord>>) -> (r: Option<String>)
    ensures
        match master {
            Some(layer) => if layer@.len() > 0 {
                opt_text(r) == Some(background_of(layer@[0].target@, strings(layer@[0].attrs@)))
            } else {
                r is None
            },
            None => r is None,
        },
{
    let layer = match master {
        Some(l) => l,
        None => return None,
    };
    if layer.len() == 0 {
        return None;
    }
    let bg = &layer[0];
    let mut full_name = bg.target.clone();
    if bg.attrs.len() > 0 {
        full_name.append("_");
        let joined = join_strings(&bg.attrs, "_");
        full_name.append(joined.as_str());
    }
    Some(full_name)
}

// ── Laws ─────────────────────────────────────────────────────────

/// A background without attributes is named by its target; each further attribute adds `_`
/// and the attribute at the end. In particular one attribute `a` gives `target_a`.
pub proof fn law_background_name(target: Seq<char>, attrs: Seq<Seq<char>>, a: Seq<char>)
    ensures
        background_of(target, Seq::empty()) == target,
        background_of(target, attrs.push(a)) == background_of(target, attrs) + "_"@ + a,
        background_of(target, seq![a]) == target + "_"@ + a,
{
    let l = attrs.push(a);
    assert(l.drop_last() =~= attrs);
    assert(l.last() == a);
    if attrs.len() == 0 {
        assert(l.len() == 1);
        assert(join(l, "_"@) == l[0]);
        assert(background_of(target, attrs.push(a)) =~= background_of(target, attrs) + "_"@ + a);
    } else {
        assert(join(l, "_"@) == join(attrs, "_"@) + "_"@ + a);
        assert(background_of(target, attrs.push(a)) =~= background_of(target, attrs) + "_"@ + a);
    }
    assert(seq![a] =~= Seq::<Seq<char>>::empty().push(a));
    assert(background_of(target, seq![a]) =~= target + "_"@ + a);
}

/// The sprite found for a target is the first sprite of the layer with that target; when
/// none is found, no sprite of the layer has that target.
pub proof fn law_find_sprite_is_first_match(layer: Seq<SpriteRecord>, target: Seq<char>)
    ensures
        find_sprite(layer, target) matches Some(sp) ==> exists|i: int|
            0 <= i < layer.len() && layer[i] == sp && sp.target@ == target && forall|j: int|
                0 <= j < i ==> (#[trigger] layer[j]).target@ != target,
        find_sprite(layer, target) is None ==> forall|i: int|
            0 <= i < layer.len() ==> (#[trigger] layer[i]).target@ != target,
    decreases layer.len(),
{
    if layer.len() > 0 && layer[0].target@ != target {
        let d = layer.drop_first();
        law_find_sprite_is_first_match(d, target);
        if let Some(sp) = find_sprite(layer, target) {
            let i = choose|i: int|
                0 <= i < d.len() && d[i] == sp && sp.target@ == target && forall|j: int|
                    0 <= j < i ==> (#[trigger] d[j]).target@ != target;
            assert(layer[i + 1] == sp);
            assert forall|j: int| 0 <= j < i + 1 implies (#[trigger] layer[j]).target@ != target by {
                if j > 0 {
                    assert(layer[j] == d[j - 1]);
                }
            }
        } else {
            assert forall|i: int| 0 <= i < layer.len() implies (#[trigger] layer[i]).target@ != target by {
                if i > 0 {
                    assert(layer[i] == d[i - 1]);
                }
            }
        }
    } else if layer.len() > 0 {
        assert(layer[0] == layer[0] && layer[0].target@ == target);
    }
}

} // verus!
