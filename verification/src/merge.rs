//! Documents laid over one another.

use crate::json::{entry_views, field, is_listing, Json, JsonView};
use crate::order::lemma_precedes_irreflexive;
use crate::text::precedes;
use vstd::prelude::*;
use vstd::string::*;

verus! {

/// `overlay` laid over `base`: two objects are merged field by field, anything else is replaced.
pub open spec fn merged(base: JsonView, overlay: JsonView) -> JsonView
    decreases overlay,
{
    match (base, overlay) {
        (JsonView::Object(below), JsonView::Object(above)) => JsonView::Object(
            Map::new(
                |key: Seq<char>| below.contains_key(key) || above.contains_key(key),
                |key: Seq<char>|
                    if !above.contains_key(key) {
                        below[key]
                    } else if below.contains_key(key) {
                        merged(below[key], above[key])
                    } else {
                        above[key]
                    },
            ),
        ),
        _ => overlay,
    }
}

/// The field `key` of `overlay` laid over `base`.
spec fn merged_field(
    below: Map<Seq<char>, JsonView>,
    above: Map<Seq<char>, JsonView>,
    key: Seq<char>,
) -> Option<JsonView> {
    match (field(below, key), field(above, key)) {
        (Some(low), Some(high)) => Some(merged(low, high)),
        (low, None) => low,
        (None, high) => high,
    }
}

/// Lays `overlay` over `base`.
pub fn deep_merge(base: &mut Json, overlay: Json)
    ensures
        final(base)@ == merged(old(base)@, overlay@),
    decreases overlay@,
{
    let ghost below_json = base@;
    let ghost above_json = overlay@;
    match overlay {
        Json::Object(over) => {
            let mut map = match base {
                Json::Object(map) => map.clone(),
                _ => {
                    *base = Json::Object(over);
                    return ;
                },
            };
            let ghost below = map@;
            let ghost above = over@;
            let list = over.listing();
            let ghost views = entry_views(list@);
            proof {
                over.lemma_finite();
            }
            for entry in it: list
                invariant
                    it.seq() == list@,
                    views == entry_views(list@),
                    is_listing(views, above),
                    above.dom().finite(),
                    above_json == overlay@,
                    above_json == JsonView::Object(above),
                    forall|i: int|
                        0 <= i < it.index() ==> field(map@, (#[trigger] views[i]).0)
                            == merged_field(below, above, views[i].0),
                    forall|key: Seq<char>|
                        (forall|i: int| 0 <= i < it.index() ==> (#[trigger] views[i]).0 != key)
                            ==> #[trigger] field(map@, key) == field(below, key),
            {
                let ghost i = it.index() as int;
                let (key, value) = entry;
                let ghost before = map@;
                proof {
                    assert(views[i] == (key@, value@));
                    assert(above.contains_key(key@) && above[key@] == value@);
                    assert(decreases_to!(above_json => above_json->Object_0));
                    assert(decreases_to!(above_json->Object_0 => above_json->Object_0[key@]));
                    assert forall|j: int| 0 <= j < i implies (#[trigger] views[j]).0 != key@ by {
                        assert(precedes(views[j].0, views[i].0));
                        lemma_precedes_irreflexive(key@);
                    }
                    assert(field(map@, key@) == field(below, key@));
                }
                match map.get(key.as_str()) {
                    Some(current) => {
                        let mut inner = current.clone();
                        deep_merge(&mut inner, value);
                        map.insert(key.as_str(), inner);
                    },
                    None => {
                        map.insert(key.as_str(), value);
                    },
                }
                proof {
                    assert forall|j: int| 0 <= j < i + 1 implies field(
                        map@,
                        (#[trigger] views[j]).0,
                    ) == merged_field(below, above, views[j].0) by {
                        if j < i {
                            assert(views[j].0 != key@);
                            assert(field(before, views[j].0) == merged_field(below, above, views[j].0));
                        }
                    }
                    assert forall|other: Seq<char>|
                        (forall|j: int| 0 <= j < i + 1 ==> (#[trigger] views[j]).0 != other) implies
                        #[trigger] field(map@, other) == field(below, other) by {
                        assert(views[i].0 != other);
                        assert(field(before, other) == field(below, other));
                    }
                }
            }
            proof {
                let goal = merged(below_json, above_json)->Object_0;
                assert forall|key: Seq<char>| field(map@, key) == #[trigger] field(goal, key) by {
                    if above.contains_key(key) {
                        let i = choose|i: int| 0 <= i < views.len() && (#[trigger] views[i]).0 == key;
                        assert(field(map@, views[i].0) == merged_field(below, above, views[i].0));
                    } else {
                        assert forall|i: int| 0 <= i < views.len() implies (#[trigger] views[i]).0
                            != key by {
                            assert(field(above, views[i].0) == Some(views[i].1));
                        }
                        assert(field(map@, key) == field(below, key));
                    }
                }
                assert forall|key: Seq<char>| map@.contains_key(key) == goal.contains_key(key) by {
                    assert(field(map@, key) == field(goal, key));
                }
                assert forall|key: Seq<char>| map@.contains_key(key) implies map@[key]
                    == goal[key] by {
                    assert(field(map@, key) == field(goal, key));
                }
                assert(map@ =~= goal);
            }
            *base = Json::Object(map);
        },
        other => {
            *base = other;
        },
    }
}

/// What an overlay says wins, field by field, and what it does not mention stays.
pub proof fn law_overlay_wins(base: JsonView, overlay: JsonView, key: Seq<char>)
    requires
        base is Object,
        overlay is Object,
    ensures
        merged(base, overlay) is Object,
        overlay.get(key) is None ==> merged(base, overlay).get(key) == base.get(key),
        overlay.get(key) matches Some(value) ==> {
            &&& !(value is Object) ==> merged(base, overlay).get(key) == Some(value)
            &&& base.get(key) is None ==> merged(base, overlay).get(key) == Some(value)
            &&& base.get(key) matches Some(low) ==> merged(base, overlay).get(key) == Some(
                merged(low, value),
            )
        },
{
}

/// An overlay that is no object, or that is laid over none, takes the place of all that was there.
pub proof fn law_plain_overlay_replaces_all(base: JsonView, overlay: JsonView)
    ensures
        !(overlay is Object) || !(base is Object) ==> merged(base, overlay) == overlay,
{
}

}
