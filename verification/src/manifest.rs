//! Android manifests: the `uses-permission` entries of module manifests, read through
//! quick-xml's namespaced reader, and their merge into the main manifest.

use vstd::prelude::*;
use vstd::utf8::{decode_utf8, valid_utf8};

use quick_xml::events::Event::{
    Comment as QComment, Decl as QDecl, Empty as QEmpty, End as QEnd, Eof as QEof, Start as QStart,
};

verus! {

use self::XmlEventKind::{Comment, Decl, Empty, End, Other, Start};

/// The Android namespace that attributes such as `android:name` belong to.
pub const ANDROID_NAMESPACE: &'static str = "http://schemas.android.com/apk/res/android";

/// The element that declares a permission.
pub const USES_PERMISSION: &'static str = "uses-permission";

/// The kind of one event of the XML reader.
#[derive(Clone, Copy, PartialEq, Eq, Structural, Debug)]
pub enum XmlEventKind {
    /// A start tag `<tag ...>`.
    Start,
    /// An empty element `<tag ... />`.
    Empty,
    /// An end tag `</tag>`.
    End,
    /// The XML declaration `<?xml ...?>`.
    Decl,
    /// A comment.
    Comment,
    /// Text, CDATA, a processing instruction or a doctype.
    Other,
}

/// One event of quick-xml's namespaced reader.
#[derive(Debug)]
pub struct XmlEvent {
    /// The namespace that the element's prefix resolves to, if any.
    pub namespace: Option<Vec<u8>>,
    /// The kind of event.
    pub kind: XmlEventKind,
    /// The event's raw bytes; for an element, its name followed by its attributes.
    pub content: Vec<u8>,
    /// For a start tag or an empty element, the length of the name at the start of `content`.
    pub name_len: usize,
}

/// The model of an `XmlEvent`.
pub struct XmlEventView {
    pub namespace: Option<Seq<u8>>,
    pub kind: XmlEventKind,
    pub content: Seq<u8>,
    pub name_len: usize,
}

impl View for XmlEvent {
    type V = XmlEventView;

    open spec fn view(&self) -> XmlEventView {
        XmlEventView {
            namespace: match self.namespace {
                Some(ns) => Some(ns@),
                None => None,
            },
            kind: self.kind,
            content: self.content@,
            name_len: self.name_len,
        }
    }
}

/// The models of a sequence of events.
pub open spec fn event_views(events: Seq<XmlEvent>) -> Seq<XmlEventView> {
    events.map_values(|e: XmlEvent| e@)
}

/// What quick-xml's reader, created with `Reader::from_str(xml)` and `trim_text(true)`,
/// yields through `read_namespaced_event` until the end of the document: the events before
/// it, and whether the document ended normally (`false` when reading failed).
pub uninterp spec fn namespaced_events_of(xml: Seq<char>) -> (Seq<XmlEventView>, bool);

/// Reads all of `xml` with quick-xml's `Reader::from_str`, `trim_text(true)` and
/// `read_namespaced_event`, until the end of the document or the first error.
/// The contract claims that the result is the named `namespaced_events_of(xml)` (the reader
/// is deterministic), and that the name of an element lies within its bytes, which holds
/// because `BytesStart::name` is the first `name_len` bytes of the event's buffer.
#[verifier::external_body]
fn namespaced_events(xml: &str) -> (r: (Vec<XmlEvent>, bool))
    ensures
        (event_views(r.0@), r.1) == namespaced_events_of(xml@),
        forall|i: int| 0 <= i < r.0@.len() ==> (#[trigger] r.0@[i]).name_len <= r.0@[i].content@.len(),
{
    let mut reader = quick_xml::Reader::from_str(xml);
    reader.trim_text(true);
    let (mut nsb, mut out) = (Vec::new(), Vec::new());
    while let Ok((ns, ev)) = reader.read_namespaced_event(&mut Vec::new(), &mut nsb) {
        let name_len = match &ev { QStart(e) | QEmpty(e) => e.name().len(), _ => 0 };
        let kind = match &ev {
            QStart(_) => Start, QEmpty(_) => Empty, QEnd(_) => End, QDecl(_) => Decl, QComment(_) => Comment,
            QEof => return (out, true), _ => Other,
        };
        out.push(XmlEvent { namespace: ns.map(Vec::from), kind, content: ev.to_vec(), name_len });
    }
    (out, false)
}

/// What quick-xml gives for the attributes of an element whose raw bytes are `content`
/// and whose name is its first `name_len` bytes: each attribute's key and raw value, in
/// order, or `None` when an attribute is malformed.
pub uninterp spec fn element_attributes_of(content: Seq<u8>, name_len: usize) -> Option<Seq<(Seq<u8>, Seq<u8>)>>;

/// Calls quick-xml's `BytesStart::borrowed(content, name_len).attributes()` and collects
/// each attribute's `key` and raw `value`; `None` when the iterator yields an error.
/// The contract claims that the result is the named `element_attributes_of(content, name_len)`
/// (the attribute parser is deterministic).
#[verifier::external_body]
fn element_attributes(content: &[u8], name_len: usize) -> (r: Option<Vec<(Vec<u8>, Vec<u8>)>>)
    requires
        name_len <= content@.len(),
    ensures
        r.deep_view() == element_attributes_of(content@, name_len),
{
    quick_xml::events::BytesStart::borrowed(content, name_len).attributes().map(
        |a| a.ok().map(|a| (a.key.to_vec(), a.value.into_owned())),
    ).collect()
}

/// `std::str::from_utf8`: the text that `bytes` encode in UTF-8, if they are valid UTF-8.
#[verifier::external_body]
fn utf8_text(bytes: &[u8]) -> (r: Option<String>)
    ensures
        r is Some <==> valid_utf8(bytes@),
        r matches Some(t) ==> t@ == decode_utf8(bytes@),
{
    std::str::from_utf8(bytes).ok().map(|t| t.to_string())
}

/// The text that `bytes` encode, or the empty text when they are not valid UTF-8.
pub open spec fn text_or_empty(bytes: Seq<u8>) -> Seq<char> {
    if valid_utf8(bytes) {
        decode_utf8(bytes)
    } else {
        Seq::empty()
    }
}

fn text_or_empty_of(bytes: &[u8]) -> (r: String)
    ensures
        r@ == text_or_empty(bytes@),
{
    match utf8_text(bytes) {
        Some(t) => t,
        None => String::new(),
    }
}

/// The bytes of an ASCII text, one per character.
pub open spec fn ascii_bytes(s: Seq<char>) -> Seq<u8> {
    Seq::new(s.len(), |i: int| s[i] as u8)
}

pub(crate) fn ascii_bytes_of(s: &str) -> (r: Vec<u8>)
    ensures
        r@ == ascii_bytes(s@),
{
    let cs = crate::text::chars_of(s);
    let mut out: Vec<u8> = Vec::new();
    let mut i: usize = 0;
    while i < cs.len()
        invariant
            i <= cs.len(),
            cs@ == s@,
            out@ =~= ascii_bytes(s@).take(i as int),
        decreases cs.len() - i,
    {
        out.push(cs[i] as u8);
        i = i + 1;
        assert(out@ =~= ascii_bytes(s@).take(i as int));
    }
    out
}

/// A permission entry: the element's name, the attribute's value and the attribute's key,
/// e.g. (`uses-permission`, `android.permission.INTERNET`, `android:name`).
pub type Permission = (String, String, String);

/// Why the permissions of a manifest could not be gathered.
#[derive(Clone, Copy, PartialEq, Eq, Structural, Debug)]
pub enum GatherError {
    /// A start tag is in a namespace other than the Android one.
    UnexpectedNamespace,
    /// An event that the manifest format does not expect, or a reading error.
    UnexpectedEvent,
    /// An attribute of an element could not be read.
    MalformedAttribute,
    /// The manifest declares no permission.
    NoUsesPermission,
}

/// The element name of an event: the first `name_len` bytes of its content.
pub open spec fn element_name(e: XmlEventView) -> Seq<u8> {
    e.content.take(e.name_len as int)
}

/// The permission entries of the attributes `attrs` of the element named `name`.
pub open spec fn permission_entries(name: Seq<u8>, attrs: Seq<(Seq<u8>, Seq<u8>)>) -> Seq<(Seq<char>, Seq<char>, Seq<char>)> {
    attrs.map_values(|a: (Seq<u8>, Seq<u8>)| (text_or_empty(name), text_or_empty(a.1), text_or_empty(a.0)))
}

/// What one event contributes: nothing for the Android-namespaced start tags, the
/// declaration, end tags, comments and start tags without a namespace; one entry per
/// attribute for an empty `uses-permission` element without a namespace; a failure for a
/// start tag in another namespace, a malformed attribute, or any other event.
pub open spec fn event_entries(e: XmlEventView) -> Result<Seq<(Seq<char>, Seq<char>, Seq<char>)>, GatherError> {
    match e.namespace {
        Some(ns) => if e.kind == XmlEventKind::Start {
            if ns == ascii_bytes(ANDROID_NAMESPACE@) {
                Ok(Seq::empty())
            } else {
                Err(GatherError::UnexpectedNamespace)
            }
        } else {
            Err(GatherError::UnexpectedEvent)
        },
        None => match e.kind {
            XmlEventKind::Decl | XmlEventKind::End | XmlEventKind::Comment => Ok(Seq::empty()),
            XmlEventKind::Start => match element_attributes_of(e.content, e.name_len) {
                Some(_) => Ok(Seq::empty()),
                None => Err(GatherError::MalformedAttribute),
            },
            XmlEventKind::Empty => match element_attributes_of(e.content, e.name_len) {
                Some(attrs) => if element_name(e) == ascii_bytes(USES_PERMISSION@) {
                    Ok(permission_entries(element_name(e), attrs))
                } else {
                    Ok(Seq::empty())
                },
                None => Err(GatherError::MalformedAttribute),
            },
            XmlEventKind::Other => Err(GatherError::UnexpectedEvent),
        },
    }
}

/// The entries of a sequence of events, in order; the first failing event decides the failure.
pub open spec fn events_entries(events: Seq<XmlEventView>) -> Result<Seq<(Seq<char>, Seq<char>, Seq<char>)>, GatherError>
    decreases events.len(),
{
    if events.len() == 0 {
        Ok(Seq::empty())
    } else {
        match events_entries(events.drop_last()) {
            Err(f) => Err(f),
            Ok(ps) => match event_entries(events.last()) {
                Err(f) => Err(f),
                Ok(qs) => Ok(ps + qs),
            },
        }
    }
}

/// The permissions gathered from the events of a manifest that ended normally (`complete`)
/// or in a reading error: the events' failure if one fails; otherwise a reading error is an
/// unexpected event, and a manifest without entries declares no permission.
pub open spec fn permissions_of_events(events: Seq<XmlEventView>, complete: bool) -> Result<Seq<(Seq<char>, Seq<char>, Seq<char>)>, GatherError> {
    match events_entries(events) {
        Err(f) => Err(f),
        Ok(ps) => if !complete {
            Err(GatherError::UnexpectedEvent)
        } else if ps.len() == 0 {
            Err(GatherError::NoUsesPermission)
        } else {
            Ok(ps)
        },
    }
}

/// The permissions that the manifest `xml` declares.
pub open spec fn permissions_of(xml: Seq<char>) -> Result<Seq<(Seq<char>, Seq<char>, Seq<char>)>, GatherError> {
    permissions_of_events(namespaced_events_of(xml).0, namespaced_events_of(xml).1)
}

/// The model of a gathering result.
pub open spec fn gathered_view(r: Result<Vec<Permission>, GatherError>) -> Result<Seq<(Seq<char>, Seq<char>, Seq<char>)>, GatherError> {
    match r {
        Ok(v) => Ok(v.deep_view()),
        Err(f) => Err(f),
    }
}

pub(crate) fn bytes_equal(a: &Vec<u8>, b: &Vec<u8>) -> (r: bool)
    ensures
        r == (a@ == b@),
{
    if a.len() != b.len() {
        return false;
    }
    let mut i: usize = 0;
    while i < a.len()
        invariant
            a.len() == b.len(),
            i <= a.len(),
            forall|k: int| 0 <= k < i ==> a@[k] == b@[k],
        decreases a.len() - i,
    {
        if a[i] != b[i] {
            return false;
        }
        i = i + 1;
    }
    assert(a@ =~= b@);
    true
}

/// The entries that one event contributes.
pub fn event_permissions(e: &XmlEvent) -> (r: Result<Vec<Permission>, GatherError>)
    requires
        e.name_len <= e.content@.len(),
    ensures
        gathered_view(r) == event_entries(e@),
{
    match &e.namespace {
        Some(ns) => {
            if e.kind == XmlEventKind::Start {
                if bytes_equal(ns, &ascii_bytes_of(ANDROID_NAMESPACE)) {
                    let out: Vec<Permission> = Vec::new();
                    assert(out.deep_view() =~= Seq::<(Seq<char>, Seq<char>, Seq<char>)>::empty());
                    Ok(out)
                } else {
                    Err(GatherError::UnexpectedNamespace)
                }
            } else {
                Err(GatherError::UnexpectedEvent)
            }
        },
        None => {
            match e.kind {
                XmlEventKind::Decl | XmlEventKind::End | XmlEventKind::Comment => {
                    let out: Vec<Permission> = Vec::new();
                    assert(out.deep_view() =~= Seq::<(Seq<char>, Seq<char>, Seq<char>)>::empty());
                    Ok(out)
                },
                XmlEventKind::Start => {
                    match element_attributes(e.content.as_slice(), e.name_len) {
                        Some(_) => {
                            let out: Vec<Permission> = Vec::new();
                            assert(out.deep_view() =~= Seq::<(Seq<char>, Seq<char>, Seq<char>)>::empty());
                            Ok(out)
                        },
                        None => Err(GatherError::MalformedAttribute),
                    }
                },
                XmlEventKind::Empty => {
                    match element_attributes(e.content.as_slice(), e.name_len) {
                        Some(attrs) => {
                            let mut name: Vec<u8> = Vec::new();
                            let mut k: usize = 0;
                            while k < e.name_len
                                invariant
                                    k <= e.name_len <= e.content@.len(),
                                    name@ =~= e.content@.take(k as int),
                                decreases e.name_len - k,
                            {
                                name.push(e.content[k]);
                                k = k + 1;
                                assert(name@ =~= e.content@.take(k as int));
                            }
                            let mut out: Vec<Permission> = Vec::new();
                            if bytes_equal(&name, &ascii_bytes_of(USES_PERMISSION)) {
                                let ghost dattrs = attrs.deep_view();
                                let mut j: usize = 0;
                                while j < attrs.len()
                                    invariant
                                        j <= attrs.len(),
                                        dattrs == attrs.deep_view(),
                                        name@ == element_name(e@),
                                        out.deep_view() =~= permission_entries(name@, dattrs).take(j as int),
                                    decreases attrs.len() - j,
                                {
                                    let entry = (
                                        text_or_empty_of(name.as_slice()),
                                        text_or_empty_of(attrs[j].1.as_slice()),
                                        text_or_empty_of(attrs[j].0.as_slice()),
                                    );
                                    assert(dattrs[j as int] == (attrs@[j as int].0@, attrs@[j as int].1@));
                                    let ghost prev = out.deep_view();
                                    out.push(entry);
                                    assert(out.deep_view() =~= prev.push(permission_entries(name@, dattrs)[j as int]));
                                    j = j + 1;
                                    assert(out.deep_view() =~= permission_entries(name@, dattrs).take(j as int));
                                }
                            }
                            assert(out.deep_view() =~= permission_entries(name@, attrs.deep_view()) || out.deep_view() =~= Seq::<(Seq<char>, Seq<char>, Seq<char>)>::empty());
                            Ok(out)
                        },
                        None => Err(GatherError::MalformedAttribute),
                    }
                },
                XmlEventKind::Other => Err(GatherError::UnexpectedEvent),
            }
        },
    }
}

/// Once the events of a prefix fail, every longer prefix fails the same way.
proof fn lemma_events_failure_stays(events: Seq<XmlEventView>, k: int)
    requires
        0 <= k <= events.len(),
        events_entries(events.take(k)) is Err,
    ensures
        events_entries(events) == events_entries(events.take(k)),
    decreases events.len() - k,
{
    if k < events.len() {
        assert(events.take(k + 1).drop_last() =~= events.take(k));
        lemma_events_failure_stays(events, k + 1);
    } else {
        assert(events.take(k) =~= events);
    }
}

/// The permissions declared by a manifest read as `events`, which ended normally
/// (`complete`) or in a reading error.
pub fn permissions_from_events(events: &Vec<XmlEvent>, complete: bool) -> (r: Result<Vec<Permission>, GatherError>)
    requires
        forall|i: int| 0 <= i < events@.len() ==> (#[trigger] events@[i]).name_len <= events@[i].content@.len(),
    ensures
        gathered_view(r) == permissions_of_events(event_views(events@), complete),
{
    let ghost evs = event_views(events@);
    let mut out: Vec<Permission> = Vec::new();
    let mut i: usize = 0;
    assert(evs.take(0) =~= Seq::<XmlEventView>::empty());
    assert(out.deep_view() =~= Seq::<(Seq<char>, Seq<char>, Seq<char>)>::empty());
    while i < events.len()
        invariant
            i <= events.len(),
            evs == event_views(events@),
            forall|k: int| 0 <= k < events@.len() ==> (#[trigger] events@[k]).name_len <= events@[k].content@.len(),
            events_entries(evs.take(i as int)) == Ok::<Seq<(Seq<char>, Seq<char>, Seq<char>)>, GatherError>(out.deep_view()),
        decreases events.len() - i,
    {
        assert(evs.take(i + 1).drop_last() =~= evs.take(i as int));
        assert(evs.take(i + 1).last() == events@[i as int]@);
        match event_permissions(&events[i]) {
            Err(f) => {
                proof {
                    lemma_events_failure_stays(evs, i + 1);
                }
                return Err(f);
            },
            Ok(items) => {
                let ghost before = out.deep_view();
                let mut k: usize = 0;
                while k < items.len()
                    invariant
                        k <= items.len(),
                        out.deep_view() == before + items.deep_view().take(k as int),
                    decreases items.len() - k,
                {
                    let ghost prev = out.deep_view();
                    out.push((items[k].0.clone(), items[k].1.clone(), items[k].2.clone()));
                    assert(out.deep_view() =~= prev.push(items.deep_view()[k as int]));
                    k = k + 1;
                    assert(out.deep_view() =~= before + items.deep_view().take(k as int));
                }
                assert(items.deep_view().take(k as int) =~= items.deep_view());
            },
        }
        i = i + 1;
    }
    assert(evs.take(i as int) =~= evs);
    if !complete {
        Err(GatherError::UnexpectedEvent)
    } else if out.len() == 0 {
        Err(GatherError::NoUsesPermission)
    } else {
        Ok(out)
    }
}

/// The `uses-permission` entries that the manifest `xml` declares, read with quick-xml's
/// namespaced reader: one entry per attribute of each empty `uses-permission` element,
/// or why the manifest could not be read that way.
pub fn gather_uses_permission(xml: &str) -> (r: Result<Vec<Permission>, GatherError>)
    ensures
        gathered_view(r) == permissions_of(xml@),
{
    let (events, complete) = namespaced_events(xml);
    permissions_from_events(&events, complete)
}

/// A permission entry as text.
pub type PermissionView = (Seq<char>, Seq<char>, Seq<char>);

/// No entry of `s` occurs twice.
pub open spec fn no_duplicates(s: Seq<PermissionView>) -> bool {
    forall|i: int, j: int| 0 <= i < s.len() && 0 <= j < s.len() && i != j ==> s[i] != s[j]
}

/// `set` with each entry of `items` that it does not hold yet appended, in order.
pub open spec fn with_new_entries(set: Seq<PermissionView>, items: Seq<PermissionView>) -> Seq<PermissionView>
    decreases items.len(),
{
    if items.len() == 0 {
        set
    } else {
        let s = with_new_entries(set, items.drop_last());
        if s.contains(items.last()) {
            s
        } else {
            s.push(items.last())
        }
    }
}

fn same_permission(a: &Permission, b: &Permission) -> (r: bool)
    ensures
        r == (a.deep_view() == b.deep_view()),
{
    a.0 == b.0 && a.1 == b.1 && a.2 == b.2
}

fn holds_permission(set: &Vec<Permission>, p: &Permission) -> (r: bool)
    ensures
        r == set.deep_view().contains(p.deep_view()),
{
    let mut i: usize = 0;
    while i < set.len()
        invariant
            i <= set.len(),
            forall|k: int| 0 <= k < i ==> set.deep_view()[k] != p.deep_view(),
        decreases set.len() - i,
    {
        if same_permission(&set[i], p) {
            assert(set.deep_view()[i as int] == p.deep_view());
            return true;
        }
        i = i + 1;
    }
    false
}

/// Adds to `set` each entry of `items` that it does not hold yet, in order: the set of
/// permissions that the main manifest is to receive.
pub fn add_new_permissions(set: &mut Vec<Permission>, items: &Vec<Permission>)
    ensures
        final(set).deep_view() == with_new_entries(old(set).deep_view(), items.deep_view()),
{
    let ghost start = set.deep_view();
    let mut i: usize = 0;
    assert(items.deep_view().take(0) =~= Seq::<PermissionView>::empty());
    while i < items.len()
        invariant
            i <= items.len(),
            set.deep_view() == with_new_entries(start, items.deep_view().take(i as int)),
        decreases items.len() - i,
    {
        assert(items.deep_view().take(i + 1).drop_last() =~= items.deep_view().take(i as int));
        assert(items.deep_view().take(i + 1).last() == items.deep_view()[i as int]);
        if !holds_permission(set, &items[i]) {
            let ghost prev = set.deep_view();
            set.push((items[i].0.clone(), items[i].1.clone(), items[i].2.clone()));
            assert(set.deep_view() =~= prev.push(items.deep_view()[i as int]));
        }
        i = i + 1;
    }
    assert(items.deep_view().take(i as int) =~= items.deep_view());
}

/// Adding entries keeps a set without duplicates, keeps every entry it held,
/// and then holds exactly the entries it held and the entries added.
pub proof fn lemma_with_new_entries(set: Seq<PermissionView>, items: Seq<PermissionView>)
    requires
        no_duplicates(set),
    ensures
        no_duplicates(with_new_entries(set, items)),
        forall|p: PermissionView| #[trigger] with_new_entries(set, items).contains(p)
            <==> (set.contains(p) || items.contains(p)),
        with_new_entries(set, items).take(set.len() as int) == set,
        with_new_entries(set, items).len() >= set.len(),
    decreases items.len(),
{
    if items.len() > 0 {
        let s = with_new_entries(set, items.drop_last());
        lemma_with_new_entries(set, items.drop_last());
        assert forall|p: PermissionView| #[trigger] with_new_entries(set, items).contains(p)
            <==> (set.contains(p) || items.contains(p)) by {
            if items.drop_last().contains(p) {
                let k = choose|k: int| 0 <= k < items.drop_last().len() && items.drop_last()[k] == p;
                assert(items[k] == p);
            }
            if items.contains(p) && p != items.last() {
                let k = choose|k: int| 0 <= k < items.len() && items[k] == p;
                assert(k != items.len() - 1);
                assert(items.drop_last()[k] == p);
            }
            if p == items.last() {
                assert(items[items.len() - 1] == p);
            }
            if !s.contains(items.last()) && with_new_entries(set, items).contains(p) && p != items.last() {
                let k = choose|k: int| 0 <= k < s.push(items.last()).len() && s.push(items.last())[k] == p;
                assert(s[k] == p);
            }
            if !s.contains(items.last()) && s.contains(p) {
                let k = choose|k: int| 0 <= k < s.len() && s[k] == p;
                assert(s.push(items.last())[k] == p);
            }
            if !s.contains(items.last()) && p == items.last() {
                assert(s.push(items.last())[s.len() as int] == p);
            }
        }
        if !s.contains(items.last()) {
            assert(s.push(items.last()).take(set.len() as int) =~= s.take(set.len() as int));
            assert forall|i: int, j: int|
                0 <= i < s.push(items.last()).len() && 0 <= j < s.push(items.last()).len() && i != j
                implies s.push(items.last())[i] != s.push(items.last())[j] by {
                if i == s.len() as int {
                    assert(s[j] == s.push(items.last())[j]);
                } else if j == s.len() as int {
                    assert(s[i] == s.push(items.last())[i]);
                }
            }
        }
    }
}

/// The line that declares permission `p` in the main manifest: ` <name key="value" />` and a newline.
pub open spec fn permission_line(p: PermissionView) -> Seq<char> {
    " <"@ + p.0 + " "@ + p.2 + "=\""@ + p.1 + "\" />\n"@
}

/// The lines that inserting each of `ps`, in order, at one same position produces:
/// the line of the last entry comes first.
pub open spec fn inserted_block(ps: Seq<PermissionView>) -> Seq<char>
    decreases ps.len(),
{
    if ps.len() == 0 {
        Seq::empty()
    } else {
        permission_line(ps.last()) + inserted_block(ps.drop_last())
    }
}

/// The start of the application element in the main manifest, before which permissions go.
pub const APPLICATION_MARK: &'static str = "    <application";

/// The main manifest `manifest` with a line for each of `ps` inserted at the first
/// `    <application`, each at that same position; `None` when there is no such place.
pub open spec fn merged_manifest(manifest: Seq<char>, ps: Seq<PermissionView>) -> Option<Seq<char>> {
    match crate::text::first_occurrence(manifest, APPLICATION_MARK@) {
        Some(at) => Some(manifest.take(at) + inserted_block(ps) + manifest.skip(at)),
        None => None,
    }
}

fn permission_line_chars(p: &Permission) -> (r: Vec<char>)
    ensures
        r@ == permission_line(p.deep_view()),
{
    let mut out = crate::text::chars_of(" <");
    crate::text::extend_chars(&mut out, &crate::text::chars_of(p.0.as_str()));
    crate::text::extend_chars(&mut out, &crate::text::chars_of(" "));
    crate::text::extend_chars(&mut out, &crate::text::chars_of(p.2.as_str()));
    crate::text::extend_chars(&mut out, &crate::text::chars_of("=\""));
    crate::text::extend_chars(&mut out, &crate::text::chars_of(p.1.as_str()));
    crate::text::extend_chars(&mut out, &crate::text::chars_of("\" />\n"));
    assert(out@ =~= permission_line(p.deep_view()));
    out
}

/// Inserts a line for each permission of `permissions`, in order, at the first
/// `    <application` of the main manifest, so that the last one comes first;
/// `None` when the manifest has no `    <application`.
pub fn parse_main_manifest(manifest: &str, permissions: &Vec<Permission>) -> (r: Option<String>)
    ensures
        r.deep_view() == merged_manifest(manifest@, permissions.deep_view()),
{
    let m = crate::text::chars_of(manifest);
    let at = match crate::text::find_chars(&m, &crate::text::chars_of(APPLICATION_MARK)) {
        Some(at) => at,
        None => return None,
    };
    proof {
        crate::text::lemma_first_occurrence(manifest@, APPLICATION_MARK@);
    }
    let ghost ps = permissions.deep_view();
    let mut block: Vec<char> = Vec::new();
    let mut i: usize = 0;
    assert(ps.take(0) =~= Seq::<PermissionView>::empty());
    while i < permissions.len()
        invariant
            i <= permissions.len(),
            ps == permissions.deep_view(),
            block@ == inserted_block(ps.take(i as int)),
        decreases permissions.len() - i,
    {
        assert(ps.take(i + 1).drop_last() =~= ps.take(i as int));
        assert(ps.take(i + 1).last() == ps[i as int]);
        let mut next = permission_line_chars(&permissions[i]);
        crate::text::extend_chars(&mut next, &block);
        block = next;
        i = i + 1;
    }
    assert(ps.take(i as int) =~= ps);
    let mut out: Vec<char> = Vec::new();
    let mut k: usize = 0;
    while k < at
        invariant
            k <= at <= m.len(),
            out@ =~= m@.take(k as int),
        decreases at - k,
    {
        out.push(m[k]);
        k = k + 1;
        assert(out@ =~= m@.take(k as int));
    }
    crate::text::extend_chars(&mut out, &block);
    let ghost head = out@;
    while k < m.len()
        invariant
            at <= k <= m.len(),
            out@ =~= head + m@.subrange(at as int, k as int),
        decreases m.len() - k,
    {
        out.push(m[k]);
        k = k + 1;
        assert(out@ =~= head + m@.subrange(at as int, k as int));
    }
    assert(m@.subrange(at as int, m.len() as int) =~= m@.skip(at as int));
    Some(crate::text::string_of(&out))
}

/// The file paths among `paths` that name an Android manifest (contain `AndroidManifest.xml`), in order.
pub open spec fn manifest_paths_of(paths: Seq<Seq<char>>) -> Seq<Seq<char>>
    decreases paths.len(),
{
    if paths.len() == 0 {
        Seq::empty()
    } else if crate::text::contains_seq(paths.last(), "AndroidManifest.xml"@) {
        manifest_paths_of(paths.drop_last()).push(paths.last())
    } else {
        manifest_paths_of(paths.drop_last())
    }
}

/// Keeps, in order, the paths that name an Android manifest.
pub fn manifest_paths(paths: &Vec<String>) -> (r: Vec<String>)
    ensures
        r.deep_view() == manifest_paths_of(paths.deep_view()),
{
    let needle = crate::text::chars_of("AndroidManifest.xml");
    let mut out: Vec<String> = Vec::new();
    let mut i: usize = 0;
    assert(paths.deep_view().take(0) =~= Seq::<Seq<char>>::empty());
    assert(out.deep_view() =~= Seq::<Seq<char>>::empty());
    while i < paths.len()
        invariant
            i <= paths.len(),
            needle@ == "AndroidManifest.xml"@,
            out.deep_view() == manifest_paths_of(paths.deep_view().take(i as int)),
        decreases paths.len() - i,
    {
        assert(paths.deep_view().take(i + 1).drop_last() =~= paths.deep_view().take(i as int));
        assert(paths.deep_view().take(i + 1).last() == paths@[i as int]@);
        if crate::text::contains_chars(&crate::text::chars_of(paths[i].as_str()), &needle) {
            let ghost prev = out.deep_view();
            out.push(paths[i].clone());
            assert(out.deep_view() =~= prev.push(paths@[i as int]@));
        }
        i = i + 1;
    }
    assert(paths.deep_view().take(i as int) =~= paths.deep_view());
    out
}

/// Adds the permissions that the module manifest `xml` declares to `set`, skipping those
/// it holds already; when they cannot be gathered, `set` is left as it was and the reason returned.
pub fn add_manifest_permissions(set: &mut Vec<Permission>, xml: &str) -> (r: Result<(), GatherError>)
    ensures
        match permissions_of(xml@) {
            Ok(ps) => r is Ok && final(set).deep_view() == with_new_entries(old(set).deep_view(), ps),
            Err(f) => r == Err::<(), GatherError>(f) && final(set).deep_view() == old(set).deep_view(),
        },
{
    match gather_uses_permission(xml) {
        Ok(ps) => {
            add_new_permissions(set, &ps);
            Ok(())
        },
        Err(f) => Err(f),
    }
}

/// The bytes of an ASCII text decode back to the text.
pub proof fn lemma_ascii_text(s: Seq<char>)
    requires
        vstd::utf8::is_ascii_chars(s),
    ensures
        text_or_empty(ascii_bytes(s)) == s,
{
    vstd::utf8::is_ascii_chars_encode_utf8(s);
    assert(ascii_bytes(s) =~= vstd::utf8::encode_utf8(s));
    vstd::utf8::encode_utf8_valid_utf8(s);
    vstd::utf8::encode_utf8_decode_utf8(s);
}

proof fn lemma_events_entries_named(events: Seq<XmlEventView>)
    ensures
        events_entries(events) matches Ok(ps) ==> forall|i: int|
            0 <= i < ps.len() ==> (#[trigger] ps[i]).0 == text_or_empty(ascii_bytes(USES_PERMISSION@)),
    decreases events.len(),
{
    if events.len() > 0 {
        lemma_events_entries_named(events.drop_last());
        if let Ok(ps) = events_entries(events) {
            let prev = events_entries(events.drop_last())->Ok_0;
            let qs = event_entries(events.last())->Ok_0;
            assert(ps == prev + qs);
            assert forall|i: int| 0 <= i < ps.len() implies (#[trigger] ps[i]).0 == text_or_empty(ascii_bytes(USES_PERMISSION@)) by {
                if i < prev.len() {
                    assert(ps[i] == prev[i]);
                } else {
                    assert(ps[i] == qs[i - prev.len()]);
                }
            }
        }
    }
}

/// Every permission gathered from a manifest comes from a `uses-permission` element,
/// and a manifest that gathers successfully declares at least one.
pub proof fn lemma_gathered_permissions_are_uses_permission(xml: Seq<char>)
    ensures
        permissions_of(xml) matches Ok(ps) ==> ps.len() > 0 && forall|i: int|
            0 <= i < ps.len() ==> (#[trigger] ps[i]).0 == USES_PERMISSION@,
{
    reveal_strlit("uses-permission");
    lemma_ascii_text(USES_PERMISSION@);
    lemma_events_entries_named(namespaced_events_of(xml).0);
}

proof fn lemma_inserted_block_empty()
    ensures
        inserted_block(Seq::empty()) == Seq::<char>::empty(),
{
}

/// Merging permissions into the main manifest only inserts their lines: the lines sit at
/// the first `    <application`, which still follows them, and removing them gives back
/// the manifest. Merging no permission leaves the manifest unchanged.
pub proof fn lemma_merge_only_inserts(manifest: Seq<char>, ps: Seq<PermissionView>)
    ensures
        merged_manifest(manifest, ps) matches Some(r) ==> {
            let at = crate::text::first_occurrence(manifest, APPLICATION_MARK@)->Some_0;
            let n = inserted_block(ps).len();
            &&& r.subrange(at, at + n) == inserted_block(ps)
            &&& r.take(at) + r.skip(at + n) == manifest
            &&& crate::text::occurs_at(r, APPLICATION_MARK@, at + n)
            &&& ps.len() == 0 ==> r == manifest
        },
{
    crate::text::lemma_first_occurrence(manifest, APPLICATION_MARK@);
    if let Some(r) = merged_manifest(manifest, ps) {
        let at = crate::text::first_occurrence(manifest, APPLICATION_MARK@)->Some_0;
        let b = inserted_block(ps);
        let n = b.len();
        assert(r == manifest.take(at) + b + manifest.skip(at));
        assert(r.subrange(at, at + n) =~= b);
        assert(r.take(at) + r.skip(at + n) =~= manifest);
        assert(r.skip(at + n) =~= manifest.skip(at));
        let m = APPLICATION_MARK@;
        assert(r.subrange(at + n, at + n + m.len()) =~= manifest.subrange(at, at + m.len()));
        if ps.len() == 0 {
            lemma_inserted_block_empty();
            assert(r =~= manifest);
        }
    }
}

/// The manifests found are exactly the walked paths that name `AndroidManifest.xml`,
/// and no more of them than were walked.
pub proof fn lemma_manifest_paths_are_manifests(paths: Seq<Seq<char>>)
    ensures
        forall|p: Seq<char>| #[trigger] manifest_paths_of(paths).contains(p)
            <==> (paths.contains(p) && crate::text::contains_seq(p, "AndroidManifest.xml"@)),
        manifest_paths_of(paths).len() <= paths.len(),
    decreases paths.len(),
{
    if paths.len() > 0 {
        let init = paths.drop_last();
        lemma_manifest_paths_are_manifests(init);
        let r = manifest_paths_of(paths);
        let ri = manifest_paths_of(init);
        assert forall|p: Seq<char>| #[trigger] r.contains(p)
            <==> (paths.contains(p) && crate::text::contains_seq(p, "AndroidManifest.xml"@)) by {
            if paths.contains(p) {
                let k = choose|k: int| 0 <= k < paths.len() && paths[k] == p;
                if k < paths.len() - 1 {
                    assert(init[k] == p);
                }
            }
            if init.contains(p) {
                let k = choose|k: int| 0 <= k < init.len() && init[k] == p;
                assert(paths[k] == p);
            }
            if ri.contains(p) {
                let k = choose|k: int| 0 <= k < ri.len() && ri[k] == p;
                assert(ri.push(paths.last())[k] == p);
            }
            if r.contains(p) && r != ri {
                let k = choose|k: int| 0 <= k < r.len() && r[k] == p;
                if k < ri.len() {
                    assert(ri[k] == p);
                }
            }
            if p == paths.last() && crate::text::contains_seq(p, "AndroidManifest.xml"@) {
                assert(r[r.len() - 1] == p);
            }
        }
    }
}

/// The inserted lines hold a line for every permission that was merged.
pub proof fn lemma_block_has_every_line(ps: Seq<PermissionView>)
    ensures
        forall|i: int| 0 <= i < ps.len() ==> crate::text::contains_seq(inserted_block(ps), #[trigger] permission_line(ps[i])),
    decreases ps.len(),
{
    if ps.len() > 0 {
        let init = ps.drop_last();
        lemma_block_has_every_line(init);
        let line = permission_line(ps.last());
        let rest = inserted_block(init);
        let b = inserted_block(ps);
        assert(b == line + rest);
        assert forall|i: int| 0 <= i < ps.len() implies crate::text::contains_seq(b, #[trigger] permission_line(ps[i])) by {
            if i == ps.len() - 1 {
                assert(b.subrange(0, line.len() as int) =~= line);
                assert(crate::text::occurs_at(b, line, 0));
            } else {
                assert(ps[i] == init[i]);
                let w = choose|w: int| crate::text::occurs_at(rest, permission_line(init[i]), w);
                let l = permission_line(init[i]);
                assert(b.subrange(line.len() + w, line.len() + w + l.len()) =~= rest.subrange(w, w + l.len()));
                assert(crate::text::occurs_at(b, l, line.len() + w));
            }
        }
    }
}

/// A comment contributes nothing: adding one anywhere among the events of a manifest
/// leaves the gathered permissions, or the failure, as they were.
pub proof fn lemma_comments_contribute_nothing(events: Seq<XmlEventView>, k: int, comment: XmlEventView, complete: bool)
    requires
        0 <= k <= events.len(),
        comment.namespace is None,
        comment.kind == XmlEventKind::Comment,
    ensures
        event_entries(comment) == Ok::<Seq<(Seq<char>, Seq<char>, Seq<char>)>, GatherError>(Seq::empty()),
        events_entries(events.insert(k, comment)) == events_entries(events),
        permissions_of_events(events.insert(k, comment), complete) == permissions_of_events(events, complete),
{
    lemma_comment_entries(events, k, comment);
}

proof fn lemma_comment_entries(events: Seq<XmlEventView>, k: int, comment: XmlEventView)
    requires
        0 <= k <= events.len(),
        comment.namespace is None,
        comment.kind == XmlEventKind::Comment,
    ensures
        events_entries(events.insert(k, comment)) == events_entries(events),
    decreases events.len(),
{
    let ins = events.insert(k, comment);
    if k == events.len() {
        assert(ins.drop_last() =~= events);
        assert(ins.last() == comment);
        if let Ok(ps) = events_entries(events) {
            assert(ps + Seq::<(Seq<char>, Seq<char>, Seq<char>)>::empty() =~= ps);
        }
    } else {
        assert(ins.drop_last() =~= events.drop_last().insert(k, comment));
        assert(ins.last() == events.last());
        lemma_comment_entries(events.drop_last(), k, comment);
    }
}

} // verus!
