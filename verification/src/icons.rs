//! Icons: the Material Symbols icons the client draws, looked up by name.
use vstd::prelude::*;
use crate::text::str_eq;

verus! {

/// The names of the icons the client draws, in sorted order.
pub open spec fn icon_names() -> Seq<Seq<char>> {
    seq![
        "account_circle"@,
        "add"@,
        "arrow_drop_down"@,
        "arrow_right"@,
        "attach_file"@,
        "chat_bubble"@,
        "close"@,
        "content_copy"@,
        "diamond"@,
        "error"@,
        "event"@,
        "expand_more"@,
        "group"@,
        "headphones"@,
        "help"@,
        "logout"@,
        "mic"@,
        "mic_off"@,
        "mood"@,
        "notifications"@,
        "palette"@,
        "person"@,
        "person_add"@,
        "reply"@,
        "search"@,
        "send"@,
        "settings"@,
        "sports_esports"@,
        "storefront"@,
        "tag"@,
        "visibility"@,
        "visibility_off"@,
        "volume_off"@,
        "volume_up"@,
    ]
}

/// The position of an icon in the sorted table, by name.
pub fn icon_index(name: &str) -> (r: Option<usize>)
    ensures
        r matches Some(i) ==> i < icon_names().len() && icon_names()[i as int] == name@,
        r is None ==> forall|i: int| 0 <= i < icon_names().len() ==> icon_names()[i] != name@,
{
    let table: [&str; 34] = [
        "account_circle",
        "add",
        "arrow_drop_down",
        "arrow_right",
        "attach_file",
        "chat_bubble",
        "close",
        "content_copy",
        "diamond",
        "error",
        "event",
        "expand_more",
        "group",
        "headphones",
        "help",
        "logout",
        "mic",
        "mic_off",
        "mood",
        "notifications",
        "palette",
        "person",
        "person_add",
        "reply",
        "search",
        "send",
        "settings",
        "sports_esports",
        "storefront",
        "tag",
        "visibility",
        "visibility_off",
        "volume_off",
        "volume_up",
    ];
    assert(table@.map_values(|s: &str| s@) =~= icon_names());
    let mut i: usize = 0;
    while i < 34
        invariant
            i <= 34,
            table@.map_values(|s: &str| s@) == icon_names(),
            forall|j: int| 0 <= j < i ==> icon_names()[j] != name@,
        decreases 34 - i,
    {
        assert(table@.map_values(|s: &str| s@)[i as int] == table@[i as int]@);
        if str_eq(table[i], name) {
            return Some(i);
        }
        i += 1;
    }
    None
}

} // verus!
