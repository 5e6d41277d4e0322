//! Text shown for an asset: its state badge, where its state comes from,
//! its tags, a status line, and previews of what a toggle would do.
use vstd::prelude::*;
use crate::model::{AssetKind, texts};
use crate::state::{AssetView, DomainState, CollectionRef};
use crate::sync::LocalStatus;
use crate::text::{decimal, decimal_text, join_texts, joined, views_of};
use crate::toggle::{MemberImpact, MemberToggleImpact, count_of, member_impacts, members_match, min_len};

verus! {

/// Marker for the presentation layer's state; it carries no data.
pub struct UiState;

pub open spec fn badge_of(v: AssetView) -> Seq<char> {
    if v.effective {
        if v.explicit == Some(true) {
            "✓ On"@
        } else if v.inherited is Some {
            "↳ On"@
        } else {
            "• On"@
        }
    } else {
        if v.explicit == Some(false) {
            "✗ Off"@
        } else if v.inherited is Some {
            "↳ Off"@
        } else {
            "• Off"@
        }
    }
}

/// A short badge: on or off, marked explicit, inherited or default.
pub fn state_badge(asset: &AssetView) -> (r: String)
    ensures
        r@ == badge_of(*asset),
{
    if asset.effective {
        if asset.explicit == Some(true) {
            String::from_str("✓ On")
        } else if asset.inherited.is_some() {
            String::from_str("↳ On")
        } else {
            String::from_str("• On")
        }
    } else {
        if asset.explicit == Some(false) {
            String::from_str("✗ Off")
        } else if asset.inherited.is_some() {
            String::from_str("↳ Off")
        } else {
            String::from_str("• Off")
        }
    }
}

pub open spec fn on_off(b: bool) -> Seq<char> {
    if b {
        "on"@
    } else {
        "off"@
    }
}

pub open spec fn source_of(v: AssetView) -> Seq<char> {
    match v.explicit {
        Some(true) => "explicit:on"@,
        Some(false) => "explicit:off"@,
        None => match v.inherited {
            Some(st) => st.collection.id@ + ":"@ + on_off(st.value),
            None => "default"@,
        },
    }
}

fn on_off_text(b: bool) -> (r: &'static str)
    ensures
        r@ == on_off(b),
{
    if b {
        "on"
    } else {
        "off"
    }
}

/// Where the state comes from: `explicit:on`, `<collection id>:off`,
/// `default`, and so on.
pub fn source_label(asset: &AssetView) -> (r: String)
    ensures
        r@ == source_of(*asset),
{
    match asset.explicit {
        Some(explicit) => {
            if explicit {
                String::from_str("explicit:on")
            } else {
                String::from_str("explicit:off")
            }
        },
        None => match &asset.inherited {
            Some(st) => {
                let mut r = st.collection.id.clone();
                r.append(":");
                r.append(on_off_text(st.value));
                r
            },
            None => String::from_str("default"),
        },
    }
}

pub open spec fn tags_of(v: AssetView) -> Seq<char> {
    match v.kind {
        AssetKind::Instruction => if v.apply_to.len() > 0 {
            joined(texts(v.apply_to@), " | "@)
        } else if v.tags.len() > 0 {
            joined(texts(v.tags@), ", "@)
        } else {
            Seq::empty()
        },
        AssetKind::Collection => decimal(v.member_count as nat) + " items"@,
        _ => if v.tags.len() > 0 {
            joined(texts(v.tags@), ", "@)
        } else {
            Seq::empty()
        },
    }
}

/// The tags column: for instructions the patterns they apply to (else
/// their tags), for collections their item count, for others their tags.
pub fn tags_field(asset: &AssetView) -> (r: String)
    ensures
        r@ == tags_of(*asset),
{
    match asset.kind {
        AssetKind::Instruction => {
            if asset.apply_to.len() > 0 {
                join_texts(&asset.apply_to, " | ")
            } else if asset.tags.len() > 0 {
                join_texts(&asset.tags, ", ")
            } else {
                String::new()
            }
        },
        AssetKind::Collection => {
            let mut r = decimal_text(asset.member_count);
            r.append(" items");
            r
        },
        _ => {
            if asset.tags.len() > 0 {
                join_texts(&asset.tags, ", ")
            } else {
                String::new()
            }
        },
    }
}

pub open spec fn bool_text(b: bool) -> Seq<char> {
    if b {
        "true"@
    } else {
        "false"@
    }
}

/// The parts of the status line, in order.
pub open spec fn status_parts(v: AssetView) -> Seq<Seq<char>> {
    let first = seq!["Effective: "@ + on_off(v.effective)];
    let with_explicit = match v.explicit {
        Some(b) => first.push("Explicit: "@ + bool_text(b)),
        None => first,
    };
    match v.inherited {
        Some(st) => with_explicit.push("Inherited: "@ + bool_text(st.value) + " from "@ + st.collection.id@),
        None => with_explicit,
    }
}

fn bool_str(b: bool) -> (r: &'static str)
    ensures
        r@ == bool_text(b),
{
    if b {
        "true"
    } else {
        "false"
    }
}

/// `Effective: on | Explicit: true | Inherited: false from <id>`, each
/// part present when it applies.
pub fn status_line(asset: &AssetView) -> (r: String)
    ensures
        r@ == joined(status_parts(*asset), " | "@),
{
    let mut parts: Vec<String> = Vec::new();
    let mut first = String::from_str("Effective: ");
    first.append(on_off_text(asset.effective));
    parts.push(first);
    match asset.explicit {
        Some(b) => {
            let mut part = String::from_str("Explicit: ");
            part.append(bool_str(b));
            parts.push(part);
        },
        None => {},
    }
    match &asset.inherited {
        Some(st) => {
            let mut part = String::from_str("Inherited: ");
            part.append(bool_str(st.value));
            part.append(" from ");
            part.append(st.collection.id.as_str());
            parts.push(part);
        },
        None => {},
    }
    assert(views_of(parts@) =~= status_parts(*asset));
    join_texts(&parts, " | ")
}

pub open spec fn ref_ids_text(refs: Seq<CollectionRef>) -> Seq<Seq<char>> {
    refs.map_values(|c: CollectionRef| c.id@)
}

/// The ids of the collections listing the asset, or `(none)`.
pub fn collections_list(asset: &AssetView) -> (r: String)
    ensures
        r@ == if asset.collections.len() == 0 {
            "(none)"@
        } else {
            joined(ref_ids_text(asset.collections@), ", "@)
        },
{
    if asset.collections.len() == 0 {
        return String::from_str("(none)");
    }
    let mut ids: Vec<String> = Vec::new();
    let mut i: usize = 0;
    while i < asset.collections.len()
        invariant
            i <= asset.collections.len(),
            ids.len() == i,
            forall|k: int| 0 <= k < i ==> #[trigger] ids@[k]@ == asset.collections@[k].id@,
        decreases asset.collections.len() - i,
    {
        ids.push(asset.collections[i].id.clone());
        i = i + 1;
    }
    assert(views_of(ids@) =~= ref_ids_text(asset.collections@));
    join_texts(&ids, ", ")
}

pub open spec fn enabled_text(b: bool) -> Seq<char> {
    if b {
        "enabled"@
    } else {
        "disabled"@
    }
}

pub open spec fn origin_of(v: AssetView) -> Seq<char> {
    if v.explicit is Some {
        "explicit"@
    } else if v.inherited is Some {
        "inherited"@
    } else {
        "default"@
    }
}

pub open spec fn preview_of(v: AssetView) -> Seq<char> {
    let head = "Currently: "@ + enabled_text(v.effective) + " ("@ + origin_of(v) + " state)\nToggle will: "@
        + enabled_text(!v.effective);
    if v.kind == AssetKind::Collection {
        head + " this collection and affect "@ + decimal(v.member_count as nat) + " members"@
    } else {
        head + " this asset"@
    }
}

fn enabled_str(b: bool) -> (r: &'static str)
    ensures
        r@ == enabled_text(b),
{
    if b {
        "enabled"
    } else {
        "disabled"
    }
}

/// Two lines: the current state and its origin, and what a toggle does.
pub fn toggle_preview(asset: &AssetView) -> (r: String)
    ensures
        r@ == preview_of(*asset),
{
    let source = if asset.explicit.is_some() {
        "explicit"
    } else if asset.inherited.is_some() {
        "inherited"
    } else {
        "default"
    };
    assert(source@ == origin_of(*asset));
    let mut r = String::from_str("Currently: ");
    r.append(enabled_str(asset.effective));
    r.append(" (");
    r.append(source);
    r.append(" state)\nToggle will: ");
    r.append(enabled_str(!asset.effective));
    if asset.kind == AssetKind::Collection {
        r.append(" this collection and affect ");
        r.append(decimal_text(asset.member_count).as_str());
        r.append(" members");
    } else {
        r.append(" this asset");
    }
    r
}

pub open spec fn change_text(i: MemberToggleImpact) -> Seq<char> {
    match i {
        MemberToggleImpact::Unchanged => "no change"@,
        MemberToggleImpact::WillEnable => "will enable"@,
        MemberToggleImpact::WillDisable => "will disable"@,
    }
}

pub open spec fn impact_line(m: MemberImpact) -> Seq<char> {
    "  • "@ + m.name@ + " ("@ + change_text(m.impact) + ")"@
}

/// The preview text for `total` members of which `members` are listed.
pub open spec fn impact_text(total: nat, members: Seq<MemberImpact>) -> Seq<char> {
    let e = count_of(members, MemberToggleImpact::WillEnable);
    let d = count_of(members, MemberToggleImpact::WillDisable);
    let u = count_of(members, MemberToggleImpact::Unchanged);
    "Impact on "@ + decimal(total) + " member"@ + (if total == 1 {
        Seq::<char>::empty()
    } else {
        "s"@
    }) + ":"@ + (if total > 5 {
        " (showing first 5)"@
    } else {
        Seq::<char>::empty()
    }) + "\n"@ + joined(members.map_values(|m: MemberImpact| impact_line(m)), "\n"@) + (if e > 0 || d > 0 || u > 0 {
        "\nSummary: "@ + decimal(e) + " enable, "@ + decimal(d) + " disable, "@ + decimal(u) + " unchanged"@
    } else {
        Seq::<char>::empty()
    })
}

fn change_str(i: MemberToggleImpact) -> (r: &'static str)
    ensures
        r@ == change_text(i),
{
    match i {
        MemberToggleImpact::Unchanged => "no change",
        MemberToggleImpact::WillEnable => "will enable",
        MemberToggleImpact::WillDisable => "will disable",
    }
}

/// For a collection, a preview of what toggling it does to its first five
/// members, with counts; `None` for other kinds or a collection that the
/// catalog does not hold.
pub fn collection_toggle_impact(asset: &AssetView, domain_state: &DomainState) -> (r: Option<String>)
    ensures
        r is None <==> (asset.kind != AssetKind::Collection || !exists|j: int|
            0 <= j < domain_state.catalog.collections.len()
                && #[trigger] domain_state.catalog.collections[j].path@ == asset.path@),
        r matches Some(text) ==> exists|j: int, members: Seq<MemberImpact>| {
            &&& domain_state.catalog.first_with_path(j, asset.path@)
            &&& members_match(
                *domain_state,
                domain_state.catalog.collections[j].items@.take(
                    min_len(5, domain_state.catalog.collections[j].items.len()) as int,
                ),
                !asset.effective,
                members,
            )
            &&& #[trigger] impact_text(domain_state.catalog.collections[j].items.len() as nat, members) == text@
        },
{
    if asset.kind != AssetKind::Collection {
        return None;
    }
    let j = match domain_state.catalog.collection_index_by_path(asset.path.as_str()) {
        Some(j) => j,
        None => {
            return None;
        },
    };
    let collection = &domain_state.catalog.collections[j];
    let will_enable = !asset.effective;
    let (members, enable_count, disable_count, unchanged_count) = member_impacts(
        domain_state,
        &collection.items,
        will_enable,
        5,
    );
    let mut lines: Vec<String> = Vec::new();
    let mut i: usize = 0;
    while i < members.len()
        invariant
            i <= members.len(),
            lines.len() == i,
            forall|k: int| 0 <= k < i ==> #[trigger] lines@[k]@ == impact_line(members@[k]),
        decreases members.len() - i,
    {
        let mut line = String::from_str("  • ");
        line.append(members[i].name.as_str());
        line.append(" (");
        line.append(change_str(members[i].impact));
        line.append(")");
        lines.push(line);
        i = i + 1;
    }
    assert(views_of(lines@) =~= members@.map_values(|m: MemberImpact| impact_line(m)));
    let total = collection.items.len();
    let mut summary = String::from_str("Impact on ");
    summary.append(decimal_text(total).as_str());
    summary.append(" member");
    if total != 1 {
        summary.append("s");
    }
    summary.append(":");
    if total > 5 {
        summary.append(" (showing first 5)");
    }
    summary.append("\n");
    summary.append(join_texts(&lines, "\n").as_str());
    if enable_count > 0 || disable_count > 0 || unchanged_count > 0 {
        summary.append("\nSummary: ");
        summary.append(decimal_text(enable_count).as_str());
        summary.append(" enable, ");
        summary.append(decimal_text(disable_count).as_str());
        summary.append(" disable, ");
        summary.append(decimal_text(unchanged_count).as_str());
        summary.append(" unchanged");
    }
    proof {
        assert(summary@ =~= impact_text(total as nat, members@));
    }
    Some(summary)
}

pub open spec fn local_text(s: LocalStatus) -> Seq<char> {
    match s {
        LocalStatus::Missing => "Missing"@,
        LocalStatus::Same => "Same"@,
        LocalStatus::Diff => "Diff"@,
        LocalStatus::NA => "N/A"@,
    }
}

/// The local-copy status as a word.
pub fn local_status(asset: &AssetView) -> (r: String)
    ensures
        r@ == local_text(asset.local),
{
    match asset.local {
        LocalStatus::Missing => String::from_str("Missing"),
        LocalStatus::Same => String::from_str("Same"),
        LocalStatus::Diff => String::from_str("Diff"),
        LocalStatus::NA => String::from_str("N/A"),
    }
}

/// A question waiting for a yes or no.
#[derive(Debug, Clone, Copy, PartialEq, Eq, Structural)]
pub enum PendingPrompt {
    Quit,
    Reload,
    ToggleCollection,
}

pub open spec fn tab_text(kind: AssetKind) -> Seq<char> {
    match kind {
        AssetKind::Prompt => "Prompts"@,
        AssetKind::Instruction => "Instructions"@,
        AssetKind::ChatMode => "Chat Modes"@,
        AssetKind::Collection => "Collections"@,
    }
}

/// The heading of the tab listing assets of `kind`.
pub fn tab_title(kind: AssetKind) -> (r: &'static str)
    ensures
        r@ == tab_text(kind),
{
    match kind {
        AssetKind::Prompt => "Prompts",
        AssetKind::Instruction => "Instructions",
        AssetKind::ChatMode => "Chat Modes",
        AssetKind::Collection => "Collections",
    }
}

pub open spec fn prompt_question(p: PendingPrompt) -> Seq<char> {
    match p {
        PendingPrompt::Quit => "Confirm quit: y=Yes / n=No"@,
        PendingPrompt::Reload => "Confirm reload (discard changes): y=Yes / n=No"@,
        PendingPrompt::ToggleCollection => "Confirm collection toggle: y=Yes / n=No"@,
    }
}

/// The question shown for a pending confirmation.
pub fn prompt_text(prompt: PendingPrompt) -> (r: &'static str)
    ensures
        r@ == prompt_question(prompt),
{
    match prompt {
        PendingPrompt::Quit => "Confirm quit: y=Yes / n=No",
        PendingPrompt::Reload => "Confirm reload (discard changes): y=Yes / n=No",
        PendingPrompt::ToggleCollection => "Confirm collection toggle: y=Yes / n=No",
    }
}

} // verus!
