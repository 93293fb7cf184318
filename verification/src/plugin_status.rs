//! Status items that plugins publish for the tab bar: which items of a
//! plugin's status document are shown, and in which order all are shown.
use vstd::prelude::*;
use crate::sorting::{self, SortOrder};
use crate::text;

verus! {

/// Status documents larger than this are ignored.
pub const MAX_STATUS_BYTES: u64 = 16384;

/// At most this many items of one plugin's document are read.
pub const MAX_ITEMS_PER_PLUGIN: usize = 8;

#[derive(Clone, Copy, Debug, PartialEq, Eq, Structural)]
pub enum PluginStatusSeverity {
    Normal,
    Warning,
}

/// The severity of an item whose document names none.
pub fn normal_severity() -> (r: PluginStatusSeverity)
    ensures
        r == PluginStatusSeverity::Normal,
{
    PluginStatusSeverity::Normal
}

/// An item of a plugin's status document.
#[derive(Debug)]
pub struct StatusDocumentItem {
    pub id: String,
    pub label: String,
    pub severity: PluginStatusSeverity,
    pub priority: i32,
}

/// A status item as the tab bar shows it.
#[derive(Debug)]
pub struct PluginStatusItem {
    pub plugin_id: String,
    pub id: String,
    pub label: String,
    pub severity: PluginStatusSeverity,
    pub priority: i32,
}

/// Plugin id, item id, label, severity, priority.
pub type StatusItemView = (Seq<char>, Seq<char>, Seq<char>, PluginStatusSeverity, i32);

impl View for PluginStatusItem {
    type V = StatusItemView;

    open spec fn view(&self) -> StatusItemView {
        (self.plugin_id@, self.id@, self.label@, self.severity, self.priority)
    }
}

/// Items are shown by priority, highest first, then by plugin id and item id.
impl SortOrder for PluginStatusItem {
    open spec fn view_le(a: StatusItemView, b: StatusItemView) -> bool {
        ||| a.4 > b.4
        ||| (a.4 == b.4 && a.0 != b.0 && text::lex_le(a.0, b.0))
        ||| (a.4 == b.4 && a.0 == b.0 && text::lex_le(a.1, b.1))
    }

    fn le(&self, other: &Self) -> (r: bool) {
        if self.priority != other.priority {
            return self.priority > other.priority;
        }
        let a = text::chars_of(self.plugin_id.as_str());
        let b = text::chars_of(other.plugin_id.as_str());
        if !text::chars_equal(&a, &b) {
            return text::chars_lex_le(&a, &b);
        }
        let x = text::chars_of(self.id.as_str());
        let y = text::chars_of(other.id.as_str());
        text::chars_lex_le(&x, &y)
    }

    proof fn lemma_total(a: StatusItemView, b: StatusItemView) {
        text::lemma_lex_le_total(a.0, b.0);
        text::lemma_lex_le_total(a.1, b.1);
    }

    proof fn lemma_transitive(a: StatusItemView, b: StatusItemView, c: StatusItemView) {
        if a.4 == b.4 && b.4 == c.4 {
            if a.0 == b.0 && b.0 == c.0 {
                text::lemma_lex_le_transitive(a.1, b.1, c.1);
            } else if a.0 != b.0 && b.0 != c.0 {
                text::lemma_lex_le_transitive(a.0, b.0, c.0);
                if a.0 == c.0 {
                    text::lemma_lex_le_antisymmetric(a.0, b.0);
                }
            }
        }
    }
}

/// An id is 1 to 64 characters, each an ASCII letter or digit, `.`, `_` or
/// `-`.
pub open spec fn valid_token_spec(s: Seq<char>) -> bool {
    &&& 0 < s.len() <= 64
    &&& forall|i: int|
        0 <= i < s.len() ==> (text::is_ascii_alphanumeric(#[trigger] s[i]) || s[i] == '.' || s[i]
            == '_' || s[i] == '-')
}

pub fn valid_token(value: &str) -> (r: bool)
    ensures
        r == valid_token_spec(value@),
{
    let chars = text::chars_of(value);
    if chars.len() == 0 || chars.len() > 64 {
        return false;
    }
    let mut k: usize = 0;
    while k < chars.len()
        invariant
            k <= chars.len(),
            chars@ == value@,
            forall|i: int|
                0 <= i < k ==> (text::is_ascii_alphanumeric(#[trigger] chars@[i]) || chars@[i]
                    == '.' || chars@[i] == '_' || chars@[i] == '-'),
        decreases chars.len() - k,
    {
        let c = chars[k];
        if !(text::char_is_ascii_alphanumeric(c) || c == '.' || c == '_' || c == '-') {
            return false;
        }
        k = k + 1;
    }
    true
}

/// A label is 1 to 80 characters without control characters.
pub open spec fn valid_label_spec(s: Seq<char>) -> bool {
    &&& 0 < s.len() <= 80
    &&& forall|i: int| 0 <= i < s.len() ==> !text::is_control(#[trigger] s[i])
}

pub fn valid_label(value: &str) -> (r: bool)
    ensures
        r == valid_label_spec(value@),
{
    let chars = text::chars_of(value);
    if chars.len() == 0 || chars.len() > 80 {
        return false;
    }
    let mut k: usize = 0;
    while k < chars.len()
        invariant
            k <= chars.len(),
            chars@ == value@,
            forall|i: int| 0 <= i < k ==> !text::is_control(#[trigger] chars@[i]),
        decreases chars.len() - k,
    {
        if text::char_is_control(chars[k]) {
            return false;
        }
        k = k + 1;
    }
    true
}

/// Whether a status document of `len` bytes is read at all.
pub fn status_file_within_limit(len: u64) -> (r: bool)
    ensures
        r == (len <= MAX_STATUS_BYTES),
{
    len <= MAX_STATUS_BYTES
}

pub open spec fn document_item_view(item: StatusDocumentItem) -> (
    Seq<char>,
    Seq<char>,
    PluginStatusSeverity,
    i32,
) {
    (item.id@, item.label@, item.severity, item.priority)
}

/// The item is shown: its id and label are valid.
pub open spec fn shown(item: (Seq<char>, Seq<char>, PluginStatusSeverity, i32)) -> bool {
    valid_token_spec(item.0) && valid_label_spec(item.1)
}

/// The items a plugin shows: of the first eight items of its document, those
/// with a valid id and label, in document order, tagged with the plugin id.
pub open spec fn plugin_items_spec(
    plugin_id: Seq<char>,
    document: Seq<(Seq<char>, Seq<char>, PluginStatusSeverity, i32)>,
) -> Seq<StatusItemView> {
    let first = if document.len() > MAX_ITEMS_PER_PLUGIN {
        document.take(MAX_ITEMS_PER_PLUGIN as int)
    } else {
        document
    };
    first.filter(shown_pred()).map_values(tag_with(plugin_id))
}

pub open spec fn shown_pred() -> spec_fn((Seq<char>, Seq<char>, PluginStatusSeverity, i32)) -> bool {
    |i: (Seq<char>, Seq<char>, PluginStatusSeverity, i32)| shown(i)
}

pub open spec fn tag_with(plugin_id: Seq<char>) -> spec_fn(
    (Seq<char>, Seq<char>, PluginStatusSeverity, i32),
) -> StatusItemView {
    |i: (Seq<char>, Seq<char>, PluginStatusSeverity, i32)| (plugin_id, i.0, i.1, i.2, i.3)
}

pub open spec fn document_views(items: Seq<StatusDocumentItem>) -> Seq<
    (Seq<char>, Seq<char>, PluginStatusSeverity, i32),
> {
    items.map_values(|i: StatusDocumentItem| document_item_view(i))
}

/// The items of one plugin; `document` is its parsed status document, `None`
/// where the file was missing, too large, unreadable or not valid.
#[verifier::rlimit(30)]
pub fn load_plugin(plugin_id: &str, document: Option<Vec<StatusDocumentItem>>) -> (r: Vec<
    PluginStatusItem,
>)
    ensures
        sorting::seq_views(r@) == match document {
            Some(d) => plugin_items_spec(plugin_id@, document_views(d@)),
            None => Seq::<StatusItemView>::empty(),
        },
{
    let mut r: Vec<PluginStatusItem> = Vec::new();
    let items = match document {
        Some(d) => d,
        None => {
            assert(sorting::seq_views(r@) =~= Seq::<StatusItemView>::empty());
            return r;
        },
    };
    let ghost dv = document_views(items@);
    let ghost first = if dv.len() > MAX_ITEMS_PER_PLUGIN {
        dv.take(MAX_ITEMS_PER_PLUGIN as int)
    } else {
        dv
    };
    let n = if items.len() > MAX_ITEMS_PER_PLUGIN {
        MAX_ITEMS_PER_PLUGIN
    } else {
        items.len()
    };
    assert(first.len() == n);
    let mut k: usize = 0;
    assert(first.take(0) =~= Seq::<(Seq<char>, Seq<char>, PluginStatusSeverity, i32)>::empty());
    while k < n
        invariant
            k <= n <= items.len(),
            first.len() == n,
            dv == document_views(items@),
            forall|m: int| 0 <= m < n ==> #[trigger] first[m] == dv[m],
            sorting::seq_views(r@) == first.take(k as int).filter(shown_pred()).map_values(tag_with(plugin_id@)),
        decreases n - k,
    {
        let item = &items[k];
        assert(first[k as int] == document_item_view(items@[k as int]));
        assert(first.take(k + 1).drop_last() =~= first.take(k as int));
        reveal_with_fuel(Seq::<_>::filter, 1);
        let ghost before = r@;
        if valid_token(item.id.as_str()) && valid_label(item.label.as_str()) {
            r.push(
                PluginStatusItem {
                    plugin_id: String::from_str(plugin_id),
                    id: item.id.clone(),
                    label: item.label.clone(),
                    severity: item.severity,
                    priority: item.priority,
                },
            );
            assert(sorting::seq_views(r@) =~= sorting::seq_views(before).push(
                tag_with(plugin_id@)(first[k as int]),
            ));
            assert(first.take(k + 1).filter(shown_pred()) =~= first.take(k as int).filter(shown_pred()).push(
                first[k as int],
            ));
        } else {
            assert(first.take(k + 1).filter(shown_pred()) =~= first.take(k as int).filter(shown_pred()));
        }
        k = k + 1;
    }
    assert(first.take(n as int) =~= first);
    r
}

/// A plugin shows at most eight items, each with a valid id and label, all
/// tagged with its id.
pub proof fn lemma_plugin_items_valid(
    plugin_id: Seq<char>,
    document: Seq<(Seq<char>, Seq<char>, PluginStatusSeverity, i32)>,
)
    ensures
        plugin_items_spec(plugin_id, document).len() <= MAX_ITEMS_PER_PLUGIN,
        forall|k: int|
            0 <= k < plugin_items_spec(plugin_id, document).len() ==> {
                let item = #[trigger] plugin_items_spec(plugin_id, document)[k];
                &&& item.0 == plugin_id
                &&& valid_token_spec(item.1)
                &&& valid_label_spec(item.2)
            },
{
    broadcast use vstd::seq_lib::group_filter_ensures;

    let first = if document.len() > MAX_ITEMS_PER_PLUGIN {
        document.take(MAX_ITEMS_PER_PLUGIN as int)
    } else {
        document
    };
    let f = first.filter(shown_pred());
    assert(f.len() <= first.len());
    assert forall|k: int| 0 <= k < f.len() implies shown(#[trigger] f[k]) by {
        assert(shown_pred()(f[k]));
    }
}

/// `item` is one of the first eight items of `document`, with a valid id and
/// label, carried over whole (id, label, severity, priority) and tagged with
/// `plugin_id`.
pub open spec fn carried_from(
    item: StatusItemView,
    plugin_id: Seq<char>,
    document: Seq<(Seq<char>, Seq<char>, PluginStatusSeverity, i32)>,
) -> bool {
    exists|j: int|
        0 <= j < document.len() && j < MAX_ITEMS_PER_PLUGIN && valid_token_spec(
            #[trigger] document[j].0,
        ) && valid_label_spec(document[j].1) && item == (
            plugin_id,
            document[j].0,
            document[j].1,
            document[j].2,
            document[j].3,
        )
}

/// Each item a plugin shows is one of the first eight items of its document,
/// with a valid id and label, carried over whole (id, label, severity and
/// priority) and tagged with the plugin id; and every such document item is
/// shown.
pub proof fn lemma_plugin_items_come_from_document(
    plugin_id: Seq<char>,
    document: Seq<(Seq<char>, Seq<char>, PluginStatusSeverity, i32)>,
)
    ensures
        forall|k: int|
            0 <= k < plugin_items_spec(plugin_id, document).len() ==> carried_from(
                #[trigger] plugin_items_spec(plugin_id, document)[k],
                plugin_id,
                document,
            ),
        forall|j: int|
            0 <= j < document.len() && j < MAX_ITEMS_PER_PLUGIN && valid_token_spec(
                #[trigger] document[j].0,
            ) && valid_label_spec(document[j].1) ==> plugin_items_spec(plugin_id, document).contains(
                (plugin_id, document[j].0, document[j].1, document[j].2, document[j].3),
            ),
{
    broadcast use vstd::seq_lib::group_filter_ensures;

    let first = if document.len() > MAX_ITEMS_PER_PLUGIN {
        document.take(MAX_ITEMS_PER_PLUGIN as int)
    } else {
        document
    };
    let f = first.filter(shown_pred());
    let out = plugin_items_spec(plugin_id, document);
    assert(out == f.map_values(tag_with(plugin_id)));
    assert forall|k: int| 0 <= k < plugin_items_spec(plugin_id, document).len() implies carried_from(
        #[trigger] plugin_items_spec(plugin_id, document)[k],
        plugin_id,
        document,
    ) by {
        assert(f.contains(f[k]));
        first.lemma_filter_contains_rev(shown_pred(), f[k]);
        let j = choose|j: int| 0 <= j < first.len() && first[j] == f[k];
        assert(shown_pred()(f[k]));
        assert(first[j] == document[j]);
        assert(out[k] == tag_with(plugin_id)(f[k]));
        assert(valid_token_spec(document[j].0));
        assert(carried_from(out[k], plugin_id, document));
    }
    assert forall|j: int|
        0 <= j < document.len() && j < MAX_ITEMS_PER_PLUGIN && valid_token_spec(
            #[trigger] document[j].0,
        ) && valid_label_spec(document[j].1) implies out.contains(
        (plugin_id, document[j].0, document[j].1, document[j].2, document[j].3),
    ) by {
        assert(first[j] == document[j]);
        assert(shown_pred()(first[j]));
        first.lemma_filter_contains(shown_pred(), j);
        let k = choose|k: int| 0 <= k < f.len() && f[k] == first[j];
        assert(out[k] == tag_with(plugin_id)(f[k]));
    }
}

/// A plugin as the registry lists it, with its status document if it was
/// read.
#[derive(Debug)]
pub struct InstalledPluginStatus {
    pub plugin_id: String,
    pub enabled: bool,
    pub document: Option<Vec<StatusDocumentItem>>,
}

pub open spec fn installed_items(p: InstalledPluginStatus) -> Seq<StatusItemView> {
    if !p.enabled {
        Seq::<StatusItemView>::empty()
    } else {
        match p.document {
            Some(d) => plugin_items_spec(p.plugin_id@, document_views(d@)),
            None => Seq::<StatusItemView>::empty(),
        }
    }
}

/// The items of the enabled plugins, in registry order.
pub open spec fn all_items(plugins: Seq<InstalledPluginStatus>) -> Seq<StatusItemView>
    decreases plugins.len(),
{
    if plugins.len() == 0 {
        Seq::<StatusItemView>::empty()
    } else {
        all_items(plugins.drop_last()) + installed_items(plugins.last())
    }
}

/// The tab bar shows every item of the enabled plugins and no other, by
/// priority, highest first, then by plugin id, then by item id.
pub proof fn lemma_load_order(plugins: Seq<InstalledPluginStatus>)
    ensures
        ({
            let d = sorting::stable_sorted::<PluginStatusItem>(all_items(plugins));
            &&& d.to_multiset() == all_items(plugins).to_multiset()
            &&& forall|i: int, j: int|
                0 <= i < j < d.len() ==> {
                    let a = #[trigger] d[i];
                    let b = #[trigger] d[j];
                    &&& a.4 >= b.4
                    &&& a.4 == b.4 && a.0 != b.0 ==> text::lex_le(a.0, b.0)
                    &&& a.4 == b.4 && a.0 == b.0 ==> text::lex_le(a.1, b.1)
                }
        }),
{
    sorting::lemma_stable_sorted_sorted_permutation::<PluginStatusItem>(all_items(plugins));
}

/// The status items of all enabled plugins, highest priority first, then by
/// plugin id and item id; items that compare equal keep their order.
#[verifier::rlimit(30)]
pub fn load(plugins: Vec<InstalledPluginStatus>) -> (r: Vec<PluginStatusItem>)
    ensures
        sorting::seq_views(r@) == sorting::stable_sorted::<PluginStatusItem>(all_items(plugins@)),
{
    let ghost orig = plugins@;
    let mut rest = plugins;
    let mut items: Vec<PluginStatusItem> = Vec::new();
    let ghost mut done: int = 0;
    assert(orig.take(0) =~= Seq::<InstalledPluginStatus>::empty());
    assert(rest@ =~= orig.skip(0));
    while rest.len() > 0
        invariant
            0 <= done <= orig.len(),
            rest@ == orig.skip(done),
            sorting::seq_views(items@) == all_items(orig.take(done)),
        decreases rest.len(),
    {
        let p = rest.remove(0);
        assert(p == orig[done]);
        assert(rest@ =~= orig.skip(done + 1));
        assert(orig.take(done + 1).drop_last() =~= orig.take(done));
        let ghost before = items@;
        if p.enabled {
            let mut loaded = load_plugin(p.plugin_id.as_str(), p.document);
            items.append(&mut loaded);
            assert(sorting::seq_views(items@) =~= sorting::seq_views(before)
                + installed_items(orig[done]));
        } else {
            assert(sorting::seq_views(items@) =~= sorting::seq_views(before)
                + installed_items(orig[done]));
        }
        proof {
            done = done + 1;
        }
    }
    assert(orig.take(done) =~= orig);
    sorting::stable_sort(items)
}

} // verus!
