//! The server's options: style templates, permits and addresses.

use vstd::prelude::*;
use std::time::Duration;
use crate::config::{BlCapacityPolicy, ClusterConfig, larger, max_usize, min_usize, smaller};
use crate::human_time::{span_total, spans_fit};
use crate::text::{
    begins_with, law_nothing_is_replaced_without_the_pattern, law_the_first_mark_splits,
    law_the_pattern_is_replaced, law_trimming_cuts_the_ends,
    chars_of, contains, cut, debug_of, debug_text, find, is_space, numeral, numeral_text, occurs, position,
    lemma_position, replace, replaced, same_text, space, spells, split, split_on, string_of, trim, trimmed, views,
};
use crate::time::{nanos, MAX_NANOS};
use crate::types::StyleRevision;
use crate::url::{parse, url_parse};

verus! {

/// What stands in a style template for the style.
pub open spec fn style_placeholder() -> Seq<char> {
    "{style_id}"@
}

/// What stands in a tileset template for the tileset.
pub open spec fn tileset_placeholder() -> Seq<char> {
    "{tileset_id}"@
}

/// Templates of style URLs: of some namespaces, and one for all other styles.
#[derive(Clone, Debug, PartialEq, Eq)]
pub struct StyleTemplates {
    /// Namespaces with their templates, in the order in which they were given.
    pub namespaces: Vec<(String, String)>,
    /// The template of styles whose namespace is not listed.
    pub default: Option<String>,
}

/// The model of style templates.
#[verifier::ext_equal]
pub struct TemplatesView {
    pub namespaces: Seq<(Seq<char>, Seq<char>)>,
    pub default: Option<Seq<char>>,
}

pub open spec fn pair_views(pairs: Seq<(String, String)>) -> Seq<(Seq<char>, Seq<char>)> {
    Seq::new(pairs.len(), |i: int| (pairs[i].0@, pairs[i].1@))
}

pub open spec fn option_view(text: Option<String>) -> Option<Seq<char>> {
    match text {
        Some(t) => Some(t@),
        None => None,
    }
}

impl View for StyleTemplates {
    type V = TemplatesView;

    open spec fn view(&self) -> TemplatesView {
        TemplatesView {
            namespaces: pair_views(self.namespaces@),
            default: option_view(self.default),
        }
    }
}

impl Default for StyleTemplates {
    fn default() -> (r: StyleTemplates)
        ensures
            r@ == (TemplatesView { namespaces: Seq::empty(), default: None }),
    {
        let r = StyleTemplates { namespaces: Vec::new(), default: None };
        assert(r@ =~= (TemplatesView { namespaces: Seq::empty(), default: None }));
        r
    }
}

/// What is wrong with a list of style templates.
#[derive(Debug, PartialEq, Eq)]
pub enum TemplateError {
    Empty { label: String },
    NoPlaceholder { label: String },
    NotAUrl { label: String, reason: String },
    Scheme { scheme: String },
    ManyDefaults { previous: String, template: String },
    DuplicateNamespace { namespace: String },
    NoTemplates,
}

/// The model of what is wrong with a list of style templates.
pub enum TemplateFault {
    Empty { label: Seq<char> },
    NoPlaceholder { label: Seq<char> },
    NotAUrl { label: Seq<char>, reason: Seq<char> },
    Scheme { scheme: Seq<char> },
    ManyDefaults { previous: Seq<char>, template: Seq<char> },
    DuplicateNamespace { namespace: Seq<char> },
    NoTemplates,
}

impl View for TemplateError {
    type V = TemplateFault;

    open spec fn view(&self) -> TemplateFault {
        match *self {
            TemplateError::Empty { label } => TemplateFault::Empty { label: label@ },
            TemplateError::NoPlaceholder { label } => TemplateFault::NoPlaceholder {
                label: label@,
            },
            TemplateError::NotAUrl { label, reason } => TemplateFault::NotAUrl {
                label: label@,
                reason: reason@,
            },
            TemplateError::Scheme { scheme } => TemplateFault::Scheme { scheme: scheme@ },
            TemplateError::ManyDefaults { previous, template } => TemplateFault::ManyDefaults {
                previous: previous@,
                template: template@,
            },
            TemplateError::DuplicateNamespace { namespace } => TemplateFault::DuplicateNamespace {
                namespace: namespace@,
            },
            TemplateError::NoTemplates => TemplateFault::NoTemplates,
        }
    }
}

/// What is said of a faulty list of style templates.
pub open spec fn template_fault_text(fault: TemplateFault) -> Seq<char> {
    match fault {
        TemplateFault::Empty { label } => "style template for "@ + label + " must not be empty"@,
        TemplateFault::NoPlaceholder { label } => "style template for "@ + label
            + " must contain {style_id}"@,
        TemplateFault::NotAUrl { label, .. } => "parse style template for "@ + label,
        TemplateFault::Scheme { scheme } => "style URL scheme "@ + debug_text(scheme)
            + " is not supported; expected http or https"@,
        TemplateFault::ManyDefaults { previous, template } =>
            "BIEI_STYLE_TEMPLATES has multiple default templates ("@ + debug_text(previous)
            + " and "@ + debug_text(template) + "); keep only one bare/`default=` entry"@,
        TemplateFault::DuplicateNamespace { namespace } =>
            "BIEI_STYLE_TEMPLATES has duplicate namespace "@ + debug_text(namespace),
        TemplateFault::NoTemplates => "BIEI_STYLE_TEMPLATES must define at least one template"@,
    }
}

/// Three texts in a row.
fn joined(a: &str, b: &str, c: &str) -> (r: String)
    ensures
        r@ == a@ + b@ + c@,
{
    let mut out = String::new();
    out.push_str(a);
    out.push_str(b);
    out.push_str(c);
    assert(out@ =~= a@ + b@ + c@);
    out
}

impl TemplateError {
    /// What lies behind the fault: why a template is no URL.
    pub fn reason(&self) -> (r: Option<&String>)
        ensures
            match self@ {
                TemplateFault::NotAUrl { reason, .. } => r is Some && r->Some_0@ == reason,
                _ => r is None,
            },
    {
        match self {
            TemplateError::NotAUrl { reason, .. } => Some(reason),
            _ => None,
        }
    }

    /// What is said of the fault.
    pub fn message(&self) -> (r: String)
        ensures
            r@ == template_fault_text(self@),
    {
        match self {
            TemplateError::Empty { label } => joined(
                "style template for ",
                label.as_str(),
                " must not be empty",
            ),
            TemplateError::NoPlaceholder { label } => joined(
                "style template for ",
                label.as_str(),
                " must contain {style_id}",
            ),
            TemplateError::NotAUrl { label, .. } => {
                let mut out = "parse style template for ".to_owned();
                out.push_str(label.as_str());
                out
            },
            TemplateError::Scheme { scheme } => joined(
                "style URL scheme ",
                debug_of(scheme.as_str()).as_str(),
                " is not supported; expected http or https",
            ),
            TemplateError::ManyDefaults { previous, template } => {
                let mut out = joined(
                    "BIEI_STYLE_TEMPLATES has multiple default templates (",
                    debug_of(previous.as_str()).as_str(),
                    " and ",
                );
                out.push_str(debug_of(template.as_str()).as_str());
                out.push_str("); keep only one bare/`default=` entry");
                out
            },
            TemplateError::DuplicateNamespace { namespace } => {
                let mut out = "BIEI_STYLE_TEMPLATES has duplicate namespace ".to_owned();
                out.push_str(debug_of(namespace.as_str()).as_str());
                out
            },
            TemplateError::NoTemplates => {
                "BIEI_STYLE_TEMPLATES must define at least one template".to_owned()
            },
        }
    }
}

/// Characters that no namespace has.
pub open spec fn outside_namespaces(c: char) -> bool {
    space(c) || c == ':' || c == '/' || c == ';' || c == '=' || c == '{' || c == '}'
}

/// A namespace is the first segment of a style's id: one plain segment.
pub open spec fn namespace_key(key: Seq<char>) -> bool {
    key.len() > 0 && forall|i: int| 0 <= i < key.len() ==> !outside_namespaces(#[trigger] key[i])
}

/// Whether a text can name a namespace.
pub fn is_namespace_key(key: &[char]) -> (r: bool)
    ensures
        r == namespace_key(key@),
{
    if key.len() == 0 {
        return false;
    }
    let mut i: usize = 0;
    while i < key.len()
        invariant
            i <= key@.len(),
            forall|j: int| 0 <= j < i ==> !outside_namespaces(#[trigger] key@[j]),
        decreases key.len() - i,
    {
        let c: char = key[i];
        if is_space(c) || c == ':' || c == '/' || c == ';' || c == '=' || c == '{' || c == '}' {
            assert(outside_namespaces(key@[i as int]));
            return false;
        }
        i += 1;
    }
    true
}

/// What is wrong with one URL template.
pub enum UrlFault {
    Empty,
    NoPlaceholder,
    NotAUrl { reason: Seq<char> },
    Scheme { scheme: Seq<char> },
}

/// A template is a URL of the web once its placeholder is filled.
pub open spec fn url_fault(
    template: Seq<char>,
    placeholder: Seq<char>,
    sample: Seq<char>,
) -> Option<UrlFault> {
    if template.len() == 0 {
        Some(UrlFault::Empty)
    } else if !occurs(template, placeholder) {
        Some(UrlFault::NoPlaceholder)
    } else {
        match url_parse(replaced(template, placeholder, sample)) {
            Err(reason) => Some(UrlFault::NotAUrl { reason }),
            Ok(url) => if url.scheme == "http"@ || url.scheme == "https"@ {
                None
            } else {
                Some(UrlFault::Scheme { scheme: url.scheme })
            },
        }
    }
}

enum UrlError {
    Empty,
    NoPlaceholder,
    NotAUrl(String),
    Scheme(String),
}

impl View for UrlError {
    type V = UrlFault;

    closed spec fn view(&self) -> UrlFault {
        match *self {
            UrlError::Empty => UrlFault::Empty,
            UrlError::NoPlaceholder => UrlFault::NoPlaceholder,
            UrlError::NotAUrl(reason) => UrlFault::NotAUrl { reason: reason@ },
            UrlError::Scheme(scheme) => UrlFault::Scheme { scheme: scheme@ },
        }
    }
}

fn check_url_template(template: &[char], placeholder: &str, sample: &str) -> (r: Option<UrlError>)
    ensures
        match r {
            Some(e) => url_fault(template@, placeholder@, sample@) == Some(e@),
            None => url_fault(template@, placeholder@, sample@) is None,
        },
{
    if template.len() == 0 {
        return Some(UrlError::Empty);
    }
    if !contains(template, placeholder) {
        return Some(UrlError::NoPlaceholder);
    }
    let filled = replace(template, placeholder, &chars_of(sample));
    let text = string_of(&filled);
    match parse(text.as_str()) {
        Err(reason) => Some(UrlError::NotAUrl(reason)),
        Ok(url) => {
            if same_text(url.scheme.as_str(), "http") || same_text(url.scheme.as_str(), "https") {
                None
            } else {
                Some(UrlError::Scheme(url.scheme))
            }
        },
    }
}

/// What is wrong with a style template.
pub open spec fn style_fault(template: Seq<char>, label: Seq<char>) -> Option<TemplateFault> {
    match url_fault(template, style_placeholder(), "sample/style"@) {
        None => None,
        Some(UrlFault::Empty) => Some(TemplateFault::Empty { label }),
        Some(UrlFault::NoPlaceholder) => Some(TemplateFault::NoPlaceholder { label }),
        Some(UrlFault::NotAUrl { reason }) => Some(TemplateFault::NotAUrl { label, reason }),
        Some(UrlFault::Scheme { scheme }) => Some(TemplateFault::Scheme { scheme }),
    }
}

/// Refuses a style template that cannot give a URL of the web.
pub fn validate_style_template(template: &[char], label: &[char]) -> (r: Result<(), TemplateError>)
    ensures
        match r {
            Ok(()) => style_fault(template@, label@) is None,
            Err(e) => style_fault(template@, label@) == Some(e@),
        },
{
    match check_url_template(template, "{style_id}", "sample/style") {
        None => Ok(()),
        Some(UrlError::Empty) => Err(TemplateError::Empty { label: string_of(label) }),
        Some(UrlError::NoPlaceholder) => {
            Err(TemplateError::NoPlaceholder { label: string_of(label) })
        },
        Some(UrlError::NotAUrl(reason)) => Err(
            TemplateError::NotAUrl { label: string_of(label), reason },
        ),
        Some(UrlError::Scheme(scheme)) => Err(TemplateError::Scheme { scheme }),
    }
}

/// An entry of a list of style templates: of a namespace, or the default.
pub struct EntryView {
    pub namespace: Option<Seq<char>>,
    pub template: Seq<char>,
}

/// An entry is `namespace=template` where what precedes its first `=` can name a
/// namespace; `default=template` and a bare template give the default.
pub open spec fn entry_of(entry: Seq<char>) -> EntryView {
    let p = position(entry, '=');
    let key = trimmed(entry.take(p));
    if p < entry.len() && namespace_key(key) {
        EntryView {
            namespace: if key == "default"@ {
                None
            } else {
                Some(key)
            },
            template: trimmed(entry.skip(p + 1)),
        }
    } else {
        EntryView { namespace: None, template: entry }
    }
}

/// The namespace is listed.
pub open spec fn lists(templates: TemplatesView, namespace: Seq<char>) -> bool {
    exists|i: int|
        0 <= i < templates.namespaces.len() && (#[trigger] templates.namespaces[i]).0 == namespace
}

/// The templates with one more entry.
pub open spec fn with_entry(templates: TemplatesView, entry: EntryView) -> Result<
    TemplatesView,
    TemplateFault,
> {
    let label = match entry.namespace {
        Some(namespace) => namespace,
        None => "default"@,
    };
    match style_fault(entry.template, label) {
        Some(fault) => Err(fault),
        None => match entry.namespace {
            None => match templates.default {
                Some(previous) => Err(
                    TemplateFault::ManyDefaults { previous, template: entry.template },
                ),
                None => Ok(TemplatesView { default: Some(entry.template), ..templates }),
            },
            Some(namespace) => if lists(templates, namespace) {
                Err(TemplateFault::DuplicateNamespace { namespace })
            } else {
                Ok(
                    TemplatesView {
                        namespaces: templates.namespaces.push((namespace, entry.template)),
                        ..templates
                    },
                )
            },
        },
    }
}

/// The templates with all entries of a list; blank ones are passed over.
pub open spec fn with_entries(templates: TemplatesView, entries: Seq<Seq<char>>) -> Result<
    TemplatesView,
    TemplateFault,
>
    decreases entries.len(),
{
    if entries.len() == 0 {
        Ok(templates)
    } else {
        let entry = trimmed(entries[0]);
        if entry.len() == 0 {
            with_entries(templates, entries.skip(1))
        } else {
            match with_entry(templates, entry_of(entry)) {
                Ok(next) => with_entries(next, entries.skip(1)),
                Err(fault) => Err(fault),
            }
        }
    }
}

pub open spec fn no_templates() -> TemplatesView {
    TemplatesView { namespaces: Seq::empty(), default: None }
}

/// The style templates that a text lists, with `;` between the entries.
pub open spec fn templates_of(raw: Seq<char>) -> Result<TemplatesView, TemplateFault> {
    match with_entries(no_templates(), split_on(raw, ';')) {
        Err(fault) => Err(fault),
        Ok(templates) => if templates.namespaces.len() == 0 && templates.default is None {
            Err(TemplateFault::NoTemplates)
        } else {
            Ok(templates)
        },
    }
}

struct Entry {
    namespace: Option<Vec<char>>,
    template: Vec<char>,
}

impl View for Entry {
    type V = EntryView;

    closed spec fn view(&self) -> EntryView {
        EntryView {
            namespace: match self.namespace {
                Some(namespace) => Some(namespace@),
                None => None,
            },
            template: self.template@,
        }
    }
}

fn read_entry(entry: Vec<char>) -> (r: Entry)
    ensures
        r@ == entry_of(entry@),
{
    let p: usize = find(&entry, '=');
    if p < entry.len() {
        let head = cut(&entry, 0, p);
        assert(head@ =~= entry@.take(p as int));
        let key = trim(&head);
        if is_namespace_key(&key) {
            let tail = cut(&entry, p + 1, entry.len());
            assert(tail@ =~= entry@.skip(p + 1));
            let template = trim(&tail);
            if spells(&key, "default") {
                return Entry { namespace: None, template };
            }
            return Entry { namespace: Some(key), template };
        }
    }
    Entry { namespace: None, template: entry }
}

impl StyleTemplates {
    fn lists_namespace(&self, namespace: &[char]) -> (r: bool)
        ensures
            r == lists(self@, namespace@),
    {
        let mut i: usize = 0;
        while i < self.namespaces.len()
            invariant
                i <= self.namespaces@.len(),
                forall|j: int|
                    0 <= j < i ==> (#[trigger] self@.namespaces[j]).0 != namespace@,
            decreases self.namespaces.len() - i,
        {
            assert(self@.namespaces[i as int].0 == self.namespaces@[i as int].0@);
            if spells(namespace, self.namespaces[i].0.as_str()) {
                return true;
            }
            i += 1;
        }
        false
    }

    fn add_entry(&mut self, entry: Entry) -> (r: Result<(), TemplateError>)
        ensures
            match r {
                Ok(()) => with_entry(old(self)@, entry@) == Ok::<TemplatesView, TemplateFault>(
                    final(self)@,
                ),
                Err(e) => with_entry(old(self)@, entry@) == Err::<TemplatesView, TemplateFault>(
                    e@,
                ),
            },
    {
        let ghost before = *self;
        match entry.namespace {
            None => {
                validate_style_template(&entry.template, &chars_of("default"))?;
                let template = string_of(&entry.template);
                if let Some(previous) = &self.default {
                    return Err(TemplateError::ManyDefaults { previous: previous.clone(), template });
                }
                self.default = Some(template);
                assert(self@ =~= (TemplatesView { default: Some(entry.template@), ..before@ }));
            },
            Some(namespace) => {
                validate_style_template(&entry.template, &namespace)?;
                if self.lists_namespace(&namespace) {
                    return Err(
                        TemplateError::DuplicateNamespace { namespace: string_of(&namespace) },
                    );
                }
                self.namespaces.push((string_of(&namespace), string_of(&entry.template)));
                assert(self@.namespaces =~= before@.namespaces.push(
                    (namespace@, entry.template@),
                ));
            },
        }
        Ok(())
    }
}

/// Reads a list of style templates.
pub fn parse_style_templates(raw: &str) -> (r: Result<StyleTemplates, TemplateError>)
    ensures
        match r {
            Ok(templates) => templates_of(raw@) == Ok::<TemplatesView, TemplateFault>(templates@),
            Err(e) => templates_of(raw@) == Err::<TemplatesView, TemplateFault>(e@),
        },
{
    let entries = split(&chars_of(raw), ';');
    let ghost all = split_on(raw@, ';');
    let mut out = StyleTemplates { namespaces: Vec::new(), default: None };
    let mut i: usize = 0;
    assert(out@ =~= no_templates());
    assert(all.skip(0) =~= all);
    while i < entries.len()
        invariant
            i <= entries@.len(),
            views(entries@) == all,
            all == split_on(raw@, ';'),
            with_entries(out@, all.skip(i as int)) == with_entries(no_templates(), all),
        decreases entries.len() - i,
    {
        let ghost rest = all.skip(i as int);
        assert(rest[0] == entries@[i as int]@);
        assert(rest.skip(1) =~= all.skip(i + 1));
        let entry = trim(&entries[i]);
        if entry.len() > 0 {
            out.add_entry(read_entry(entry))?;
        }
        i += 1;
    }
    assert(all.skip(i as int).len() == 0);
    if out.namespaces.len() == 0 && out.default.is_none() {
        return Err(TemplateError::NoTemplates);
    }
    Ok(out)
}

/// No namespace is listed twice, and every template is a URL of the web.
pub open spec fn sound(templates: TemplatesView) -> bool {
    &&& forall|i: int, j: int|
        0 <= i < templates.namespaces.len() && 0 <= j < templates.namespaces.len() && i != j
            ==> (#[trigger] templates.namespaces[i]).0 != (#[trigger] templates.namespaces[j]).0
    &&& forall|i: int|
        0 <= i < templates.namespaces.len() ==> url_fault(
            (#[trigger] templates.namespaces[i]).1,
            style_placeholder(),
            "sample/style"@,
        ) is None
    &&& templates.default matches Some(template) ==> url_fault(
        template,
        style_placeholder(),
        "sample/style"@,
    ) is None
}

proof fn lemma_entries_are_sound(templates: TemplatesView, entries: Seq<Seq<char>>)
    requires
        sound(templates),
    ensures
        with_entries(templates, entries) matches Ok(t) ==> sound(t),
    decreases entries.len(),
{
    if entries.len() > 0 {
        let entry = trimmed(entries[0]);
        if entry.len() == 0 {
            lemma_entries_are_sound(templates, entries.skip(1));
        } else {
            match with_entry(templates, entry_of(entry)) {
                Ok(next) => {
                    let n = templates.namespaces.len() as int;
                    assert forall|i: int, j: int|
                        0 <= i < next.namespaces.len() && 0 <= j < next.namespaces.len() && i
                            != j implies (#[trigger] next.namespaces[i]).0 != (
                    #[trigger] next.namespaces[j]).0 by {
                        if i < n {
                            assert(next.namespaces[i] == templates.namespaces[i]);
                        }
                        if j < n {
                            assert(next.namespaces[j] == templates.namespaces[j]);
                        }
                    }
                    assert forall|i: int| 0 <= i < next.namespaces.len() implies url_fault(
                        (#[trigger] next.namespaces[i]).1,
                        style_placeholder(),
                        "sample/style"@,
                    ) is None by {
                        if i < n {
                            assert(next.namespaces[i] == templates.namespaces[i]);
                        }
                    }
                    lemma_entries_are_sound(next, entries.skip(1));
                },
                Err(_) => {},
            }
        }
    }
}

/// Accepted style templates name each namespace once, are URLs of the web, and
/// are at least one.
pub proof fn law_accepted_templates_are_sound(raw: Seq<char>)
    ensures
        templates_of(raw) matches Ok(t) ==> sound(t) && (t.namespaces.len() > 0 || t.default
            is Some),
{
    lemma_entries_are_sound(no_templates(), split_on(raw, ';'));
}

/// What is wrong with a tileset template.
#[derive(Debug, PartialEq, Eq)]
pub enum TilesetError {
    Empty,
    NoPlaceholder,
    NotAUrl { reason: String },
    Scheme { scheme: String },
}

impl View for TilesetError {
    type V = UrlFault;

    open spec fn view(&self) -> UrlFault {
        match *self {
            TilesetError::Empty => UrlFault::Empty,
            TilesetError::NoPlaceholder => UrlFault::NoPlaceholder,
            TilesetError::NotAUrl { reason } => UrlFault::NotAUrl { reason: reason@ },
            TilesetError::Scheme { scheme } => UrlFault::Scheme { scheme: scheme@ },
        }
    }
}

/// What is said of a faulty tileset template.
pub open spec fn tileset_fault_text(fault: UrlFault) -> Seq<char> {
    match fault {
        UrlFault::Empty => "--tileset-url-template must not be empty"@,
        UrlFault::NoPlaceholder => "--tileset-url-template must contain {tileset_id}"@,
        UrlFault::NotAUrl { .. } => "parse --tileset-url-template"@,
        UrlFault::Scheme { scheme } => "tileset URL scheme "@ + debug_text(scheme)
            + " is not supported; expected http or https"@,
    }
}

impl TilesetError {
    /// What lies behind the fault: why a template is no URL.
    pub fn reason(&self) -> (r: Option<&String>)
        ensures
            match self@ {
                UrlFault::NotAUrl { reason } => r is Some && r->Some_0@ == reason,
                _ => r is None,
            },
    {
        match self {
            TilesetError::NotAUrl { reason } => Some(reason),
            _ => None,
        }
    }

    /// What is said of the fault.
    pub fn message(&self) -> (r: String)
        ensures
            r@ == tileset_fault_text(self@),
    {
        match self {
            TilesetError::Empty => "--tileset-url-template must not be empty".to_owned(),
            TilesetError::NoPlaceholder => {
                "--tileset-url-template must contain {tileset_id}".to_owned()
            },
            TilesetError::NotAUrl { .. } => "parse --tileset-url-template".to_owned(),
            TilesetError::Scheme { scheme } => joined(
                "tileset URL scheme ",
                debug_of(scheme.as_str()).as_str(),
                " is not supported; expected http or https",
            ),
        }
    }
}

/// What is wrong with a tileset template.
pub open spec fn tileset_fault(template: Seq<char>) -> Option<UrlFault> {
    url_fault(template, tileset_placeholder(), "sample/tileset"@)
}

/// Refuses a tileset template that cannot give a URL of the web.
pub fn validate_tileset_url_template(template: &str) -> (r: Result<(), TilesetError>)
    ensures
        match r {
            Ok(()) => tileset_fault(template@) is None,
            Err(e) => tileset_fault(template@) == Some(e@),
        },
{
    match check_url_template(&chars_of(template), "{tileset_id}", "sample/tileset") {
        None => Ok(()),
        Some(UrlError::Empty) => Err(TilesetError::Empty),
        Some(UrlError::NoPlaceholder) => Err(TilesetError::NoPlaceholder),
        Some(UrlError::NotAUrl(reason)) => Err(TilesetError::NotAUrl { reason }),
        Some(UrlError::Scheme(scheme)) => Err(TilesetError::Scheme { scheme }),
    }
}

/// Where the URL of a style comes from: the template of its namespace, which
/// takes the rest of the id, or the default template, which takes all of it.
pub open spec fn style_url_of(templates: TemplatesView, id: Seq<char>) -> Option<Seq<char>> {
    let p = position(id, '/');
    if p < id.len() && lists(templates, id.take(p)) {
        let i = choose|i: int|
            0 <= i < templates.namespaces.len() && (#[trigger] templates.namespaces[i]).0
                == id.take(p);
        Some(replaced(templates.namespaces[i].1, style_placeholder(), id.skip(p + 1)))
    } else {
        match templates.default {
            Some(template) => Some(replaced(template, style_placeholder(), id)),
            None => None,
        }
    }
}

/// The styles that templates give.
#[derive(Debug)]
pub struct StyleCatalog {
    pub templates: StyleTemplates,
}

impl StyleCatalog {
    /// The URL of a style's definition.
    pub fn style_url(&self, revision: &StyleRevision) -> (r: Option<String>)
        requires
            sound(self.templates@),
        ensures
            option_view(r) == style_url_of(self.templates@, revision.id@),
    {
        let id = chars_of(revision.id.as_str());
        let p: usize = find(&id, '/');
        proof {
            lemma_position(id@, '/');
        }
        if p < id.len() {
            let head = cut(&id, 0, p);
            let rest = cut(&id, p + 1, id.len());
            assert(head@ =~= id@.take(p as int));
            assert(rest@ =~= id@.skip(p + 1));
            let mut i: usize = 0;
            while i < self.templates.namespaces.len()
                invariant
                    i <= self.templates.namespaces@.len(),
                    sound(self.templates@),
                    id@ == revision.id@,
                    p == position(id@, '/'),
                    p < id@.len(),
                    head@ == id@.take(p as int),
                    rest@ == id@.skip(p + 1),
                    forall|j: int|
                        0 <= j < i ==> (#[trigger] self.templates@.namespaces[j]).0 != head@,
                decreases self.templates.namespaces.len() - i,
            {
                assert(self.templates@.namespaces[i as int].0
                    == self.templates.namespaces@[i as int].0@);
                if spells(&head, self.templates.namespaces[i].0.as_str()) {
                    let template = chars_of(self.templates.namespaces[i].1.as_str());
                    assert(self.templates@.namespaces[i as int].1
                        == self.templates.namespaces@[i as int].1@);
                    let url = replace(&template, "{style_id}", &rest);
                    assert(lists(self.templates@, id@.take(p as int)));
                    return Some(string_of(&url));
                }
                i += 1;
            }
            assert(!lists(self.templates@, id@.take(p as int)));
        }
        match &self.templates.default {
            Some(template) => {
                let url = replace(&chars_of(template.as_str()), "{style_id}", &id);
                Some(string_of(&url))
            },
            None => None,
        }
    }

    /// The latest version of a style: the first, for every style that has a
    /// template.
    pub fn resolve_latest(&self, id: &StyleRevision) -> (r: Option<u64>)
        requires
            sound(self.templates@),
        ensures
            r == if style_url_of(self.templates@, id.id@) is Some {
                Some(1u64)
            } else {
                None
            },
    {
        match self.style_url(id) {
            Some(_) => Some(1),
            None => None,
        }
    }

    /// Whether a revision is one that the catalog gives: the latest of its style.
    pub fn accepts_revision(&self, revision: &StyleRevision) -> (r: bool)
        requires
            sound(self.templates@),
        ensures
            r == (style_url_of(self.templates@, revision.id@) is Some && revision.version == 1),
    {
        match self.resolve_latest(revision) {
            Some(latest) => revision.version == latest,
            None => false,
        }
    }
}

/// The tilesets that a template gives.
#[derive(Debug)]
pub struct TilesetCatalog {
    pub template: String,
}

impl TilesetCatalog {
    /// The URL of a tileset's description.
    pub fn resolve_url(&self, tileset_id: &str) -> (r: String)
        ensures
            r@ == replaced(self.template@, tileset_placeholder(), tileset_id@),
    {
        let url = replace(&chars_of(self.template.as_str()), "{tileset_id}", &chars_of(tileset_id));
        string_of(&url)
    }
}

/// An IP address.
#[derive(Clone, Copy, Debug, PartialEq, Eq, Structural)]
pub enum IpAddress {
    V4(u32),
    V6(u128),
}

impl IpAddress {
    /// The address that stands for any address of the host.
    pub open spec fn unspecified(self) -> bool {
        self == IpAddress::V4(0) || self == IpAddress::V6(0)
    }

    pub fn is_unspecified(self) -> (r: bool)
        ensures
            r == self.unspecified(),
    {
        match self {
            IpAddress::V4(n) => n == 0,
            IpAddress::V6(n) => n == 0,
        }
    }
}

/// An address that a server listens on or is reached at.
#[derive(Clone, Copy, Debug, PartialEq, Eq, Structural)]
pub struct SocketAddress {
    pub ip: IpAddress,
    pub port: u16,
}

/// The options as they were given.
#[derive(Debug)]
pub struct GivenOptions {
    pub style_templates: String,
    pub tileset_url_template: String,
    pub cluster: bool,
    pub http_bind: SocketAddress,
    pub internal_port: u16,
    pub internal_advertise_addr: Option<SocketAddress>,
    pub gossip_bind: SocketAddress,
    pub gossip_seeds: Vec<String>,
    pub node_id: Option<String>,
    pub cores: Option<usize>,
    pub sla: Duration,
    pub maplibre_cache_path: Option<String>,
    pub debug_renderer_slots: Option<usize>,
    pub debug_render_permits: Option<usize>,
    pub debug_cpu_render_permits: Option<usize>,
    pub source_cache_capacity: usize,
    pub render_output_cache_bytes: u64,
}

/// What the machine gives for options that were not given.
#[derive(Debug)]
pub struct HostDefaults {
    pub cores: usize,
    pub node_id: String,
    pub maplibre_cache_path: String,
}

/// The options that a server runs with.
#[derive(Debug, PartialEq, Eq)]
pub struct Options {
    pub style_templates: StyleTemplates,
    pub tileset_url_template: String,
    pub cluster: bool,
    pub http_bind: SocketAddress,
    pub internal_bind: SocketAddress,
    pub internal_advertise_addr: SocketAddress,
    pub gossip_bind: SocketAddress,
    pub gossip_seeds: Vec<String>,
    pub node_id: String,
    pub cores: usize,
    pub sla: Duration,
    pub maplibre_cache_path: String,
    pub renderer_slots_per_node: usize,
    pub render_permits_per_node: usize,
    pub cpu_render_permits_per_node: usize,
    pub source_cache_capacity: usize,
    pub render_output_cache_capacity_bytes: u64,
}

/// Why options are refused.
#[derive(Debug)]
pub enum OptionsError {
    Templates(TemplateError),
    Tileset(TilesetError),
    SeedsWithoutCluster,
    WildcardAdvertise,
}

impl OptionsError {
    /// What is said of refused options.
    pub open spec fn text(&self) -> Seq<char> {
        match *self {
            OptionsError::Templates(e) => template_fault_text(e@),
            OptionsError::Tileset(e) => tileset_fault_text(e@),
            OptionsError::SeedsWithoutCluster => "use --cluster to enable cluster mode"@,
            OptionsError::WildcardAdvertise =>
                "cluster mode needs a non-wildcard --internal-advertise-addr"@,
        }
    }

    /// What lies behind the refusal, if anything does.
    pub open spec fn cause(&self) -> Option<Seq<char>> {
        match *self {
            OptionsError::Templates(e) => match e@ {
                TemplateFault::NotAUrl { reason, .. } => Some(reason),
                _ => None,
            },
            OptionsError::Tileset(e) => match e@ {
                UrlFault::NotAUrl { reason } => Some(reason),
                _ => None,
            },
            _ => None,
        }
    }

    /// Why a template of the options is no URL, where that is why they are refused.
    pub fn reason(&self) -> (r: Option<&String>)
        ensures
            match r {
                Some(text) => self.cause() == Some(text@),
                None => self.cause() is None,
            },
    {
        match self {
            OptionsError::Templates(e) => e.reason(),
            OptionsError::Tileset(e) => e.reason(),
            _ => None,
        }
    }

    /// What is said of refused options.
    pub fn message(&self) -> (r: String)
        ensures
            r@ == self.text(),
    {
        match self {
            OptionsError::Templates(e) => e.message(),
            OptionsError::Tileset(e) => e.message(),
            OptionsError::SeedsWithoutCluster => "use --cluster to enable cluster mode".to_owned(),
            OptionsError::WildcardAdvertise => {
                "cluster mode needs a non-wildcard --internal-advertise-addr".to_owned()
            },
        }
    }
}

/// Five renderer slots for four cores, rounded up, unless that is more than
/// three for two.
pub open spec fn slots_for(cores: nat) -> nat {
    let wanted = if cores * 5 > usize::MAX {
        usize::MAX as nat
    } else {
        cores * 5
    };
    let least = if cores == 0 {
        1
    } else {
        cores
    };
    let rounded = (wanted + 3) / 4;
    let slots = if rounded == 0 {
        1
    } else {
        rounded
    };
    if 2 * slots > 3 * least {
        least
    } else {
        slots
    }
}

/// The renderer slots of a node, so that some stand by while all cores render.
pub fn standby_slots_for_cores(cores: usize) -> (r: usize)
    ensures
        r == slots_for(cores as nat),
        r >= 1,
{
    let wanted: usize = match cores.checked_mul(5) {
        Some(n) => n,
        None => usize::MAX,
    };
    let rounded: usize = ((wanted as u128 + 3) / 4) as usize;
    let slots: usize = larger(rounded, 1);
    let least: usize = larger(cores, 1);
    if 2 * (slots as u128) > 3 * (least as u128) {
        least
    } else {
        slots
    }
}

pub open spec fn given_or(given: Option<usize>, otherwise: usize) -> usize {
    match given {
        Some(n) => n,
        None => otherwise,
    }
}

/// The texts of a list.
pub open spec fn text_views(texts: Seq<String>) -> Seq<Seq<char>> {
    Seq::new(texts.len(), |i: int| texts[i]@)
}

/// The seeds that are not blank.
pub open spec fn seeds_of(seeds: Seq<Seq<char>>) -> Seq<Seq<char>> {
    seeds.filter(|seed: Seq<char>| seed.len() > 0)
}

fn keep_seeds(seeds: &Vec<String>) -> (r: Vec<String>)
    ensures
        text_views(r@) == seeds_of(text_views(seeds@)),
{
    let mut out: Vec<String> = Vec::new();
    let mut i: usize = 0;
    let ghost kept = |seed: Seq<char>| seed.len() > 0;
    let ghost all = text_views(seeds@);
    proof {
        reveal(Seq::filter);
        assert(text_views(out@) =~= all.take(0).filter(kept));
    }
    while i < seeds.len()
        invariant
            i <= seeds@.len(),
            all == text_views(seeds@),
            kept == (|seed: Seq<char>| seed.len() > 0),
            text_views(out@) == all.take(i as int).filter(kept),
        decreases seeds.len() - i,
    {
        let ghost before = out@;
        let blank = seeds[i].as_str().is_empty();
        proof {
            reveal(Seq::filter);
            assert(all.take(i + 1).drop_last() =~= all.take(i as int));
            assert(all.take(i + 1).last() == seeds@[i as int]@);
        }
        if !blank {
            out.push(seeds[i].clone());
            assert(text_views(out@) =~= text_views(before).push(seeds@[i as int]@));
        }
        i += 1;
    }
    assert(all.take(i as int) =~= all);
    out
}

/// The renders that may execute at once.
pub open spec fn permits_of(given: GivenOptions, cores: usize) -> usize {
    max_usize(given_or(given.debug_render_permits, cores), 1)
}

/// The address that peers forward to: the internal port, unless another was
/// given.
pub open spec fn advertised(given: GivenOptions) -> SocketAddress {
    match given.internal_advertise_addr {
        Some(address) => address,
        None => SocketAddress { ip: given.http_bind.ip, port: given.internal_port },
    }
}

/// The fields of the options that follow from the given ones.
pub open spec fn resolves(given: GivenOptions, host: HostDefaults, r: Options) -> bool {
    let cores = max_usize(given_or(given.cores, host.cores), 1);
    let permits = permits_of(given, cores);
    let cpu = min_usize(max_usize(given_or(given.debug_cpu_render_permits, permits), 1), permits);
    let slots = max_usize(
        given_or(given.debug_renderer_slots, slots_for(cores as nat) as usize),
        permits,
    );
    &&& templates_of(given.style_templates@) == Ok::<TemplatesView, TemplateFault>(
        r.style_templates@,
    )
    &&& r.tileset_url_template@ == given.tileset_url_template@
    &&& r.cluster == given.cluster
    &&& r.http_bind == given.http_bind
    &&& r.internal_bind == (SocketAddress { ip: given.http_bind.ip, port: given.internal_port })
    &&& r.internal_advertise_addr == advertised(given)
    &&& r.gossip_bind == given.gossip_bind
    &&& text_views(r.gossip_seeds@) == seeds_of(text_views(given.gossip_seeds@))
    &&& r.node_id@ == match given.node_id {
        Some(id) => id@,
        None => host.node_id@,
    }
    &&& r.cores == cores
    &&& r.sla == given.sla
    &&& r.maplibre_cache_path@ == match given.maplibre_cache_path {
        Some(path) => path@,
        None => host.maplibre_cache_path@,
    }
    &&& r.renderer_slots_per_node == slots
    &&& r.render_permits_per_node == permits
    &&& r.cpu_render_permits_per_node == cpu
    &&& r.source_cache_capacity == given.source_cache_capacity
    &&& r.render_output_cache_capacity_bytes == given.render_output_cache_bytes
}

/// When options are refused, and why.
pub open spec fn refuses(given: GivenOptions, e: OptionsError) -> bool {
    match e {
        OptionsError::Templates(fault) => templates_of(given.style_templates@)
            == Err::<TemplatesView, TemplateFault>(fault@),
        OptionsError::Tileset(fault) => {
            &&& templates_of(given.style_templates@) is Ok
            &&& tileset_fault(given.tileset_url_template@) == Some(fault@)
        },
        OptionsError::SeedsWithoutCluster => {
            &&& templates_of(given.style_templates@) is Ok
            &&& tileset_fault(given.tileset_url_template@) is None
            &&& !given.cluster
            &&& seeds_of(text_views(given.gossip_seeds@)).len() > 0
        },
        OptionsError::WildcardAdvertise => {
            &&& templates_of(given.style_templates@) is Ok
            &&& tileset_fault(given.tileset_url_template@) is None
            &&& given.cluster
            &&& advertised(given).ip.unspecified()
        },
    }
}

/// The options are accepted.
pub open spec fn accepts(given: GivenOptions) -> bool {
    &&& templates_of(given.style_templates@) is Ok
    &&& tileset_fault(given.tileset_url_template@) is None
    &&& !given.cluster ==> seeds_of(text_views(given.gossip_seeds@)).len() == 0
    &&& given.cluster ==> !advertised(given).ip.unspecified()
}

impl Options {
    /// Resolves the given options against the machine.
    pub fn from_cli(given: GivenOptions, host: HostDefaults) -> (r: Result<Options, OptionsError>)
        ensures
            r is Ok <==> accepts(given),
            match r {
                Ok(options) => resolves(given, host, options) && sound(options.style_templates@),
                Err(e) => refuses(given, e),
            },
    {
        let style_templates = match parse_style_templates(given.style_templates.as_str()) {
            Ok(templates) => templates,
            Err(e) => {
                return Err(OptionsError::Templates(e));
            },
        };
        proof {
            law_accepted_templates_are_sound(given.style_templates@);
        }
        if let Err(e) = validate_tileset_url_template(given.tileset_url_template.as_str()) {
            return Err(OptionsError::Tileset(e));
        }
        let cores: usize = larger(given.cores.unwrap_or(host.cores), 1);
        let permits: usize = larger(given.debug_render_permits.unwrap_or(cores), 1);
        let cpu: usize = smaller(
            larger(given.debug_cpu_render_permits.unwrap_or(permits), 1),
            permits,
        );
        let slots: usize = larger(
            match given.debug_renderer_slots {
                Some(n) => n,
                None => standby_slots_for_cores(cores),
            },
            permits,
        );
        let gossip_seeds = keep_seeds(&given.gossip_seeds);
        assert(text_views(gossip_seeds@).len() == gossip_seeds@.len());
        let internal_bind = SocketAddress { ip: given.http_bind.ip, port: given.internal_port };
        let internal_advertise_addr = given.internal_advertise_addr.unwrap_or(internal_bind);
        if !given.cluster && gossip_seeds.len() > 0 {
            return Err(OptionsError::SeedsWithoutCluster);
        }
        if given.cluster && internal_advertise_addr.ip.is_unspecified() {
            return Err(OptionsError::WildcardAdvertise);
        }
        Ok(
            Options {
                style_templates,
                tileset_url_template: given.tileset_url_template,
                cluster: given.cluster,
                http_bind: given.http_bind,
                internal_bind,
                internal_advertise_addr,
                gossip_bind: given.gossip_bind,
                gossip_seeds,
                node_id: match given.node_id {
                    Some(id) => id,
                    None => host.node_id,
                },
                cores,
                sla: given.sla,
                maplibre_cache_path: match given.maplibre_cache_path {
                    Some(path) => path,
                    None => host.maplibre_cache_path,
                },
                renderer_slots_per_node: slots,
                render_permits_per_node: smaller(permits, slots),
                cpu_render_permits_per_node: smaller(cpu, slots),
                source_cache_capacity: given.source_cache_capacity,
                render_output_cache_capacity_bytes: given.render_output_cache_bytes,
            },
        )
    }

    /// The styles that the templates give.
    pub fn build_style_catalog(&self) -> (r: StyleCatalog)
        ensures
            r.templates@ == self.style_templates@,
    {
        let mut namespaces: Vec<(String, String)> = Vec::new();
        let mut i: usize = 0;
        while i < self.style_templates.namespaces.len()
            invariant
                i <= self.style_templates.namespaces@.len(),
                namespaces@.len() == i,
                forall|j: int|
                    0 <= j < i ==> (#[trigger] namespaces@[j]).0@
                        == self.style_templates.namespaces@[j].0@ && namespaces@[j].1@
                        == self.style_templates.namespaces@[j].1@,
            decreases self.style_templates.namespaces.len() - i,
        {
            let namespace = self.style_templates.namespaces[i].0.clone();
            let template = self.style_templates.namespaces[i].1.clone();
            namespaces.push((namespace, template));
            i += 1;
        }
        let default = match &self.style_templates.default {
            Some(template) => Some(template.clone()),
            None => None,
        };
        let r = StyleCatalog { templates: StyleTemplates { namespaces, default } };
        assert(r.templates@.namespaces =~= self.style_templates@.namespaces);
        r
    }

    /// The tilesets that the template gives.
    pub fn build_tileset_catalog(&self) -> (r: TilesetCatalog)
        ensures
            r.template@ == self.tileset_url_template@,
    {
        TilesetCatalog { template: self.tileset_url_template.clone() }
    }

    /// The part of the options that the cluster's nodes share.
    pub fn cluster_config(&self) -> (r: ClusterConfig)
        ensures
            r == (ClusterConfig {
                renderer_slots_per_node: self.renderer_slots_per_node,
                render_permits_per_node: Some(self.render_permits_per_node),
                cpu_render_permits_per_node: Some(self.cpu_render_permits_per_node),
                bl_capacity: BlCapacityPolicy::Auto,
                queue_capacity_multiplier: 2,
                source_cache_capacity: self.source_cache_capacity,
                render_output_cache_capacity_bytes: self.render_output_cache_capacity_bytes,
            }),
    {
        ClusterConfig {
            renderer_slots_per_node: self.renderer_slots_per_node,
            render_permits_per_node: Some(self.render_permits_per_node),
            cpu_render_permits_per_node: Some(self.cpu_render_permits_per_node),
            bl_capacity: BlCapacityPolicy::Auto,
            queue_capacity_multiplier: 2,
            source_cache_capacity: self.source_cache_capacity,
            render_output_cache_capacity_bytes: self.render_output_cache_capacity_bytes,
        }
    }
}

/// Renders on a resolved node never wait for a slot: the permits to compute are
/// at most the permits to execute, and those at most the slots.
pub proof fn law_resolved_permits_are_ordered(
    given: GivenOptions,
    host: HostDefaults,
    options: Options,
)
    requires
        resolves(given, host, options),
    ensures
        1 <= options.cpu_render_permits_per_node <= options.render_permits_per_node
            <= options.renderer_slots_per_node,
{
}

/// By default there is a slot for every core, and never more than three slots for
/// two cores.
pub proof fn law_default_slots(cores: nat)
    requires
        1 <= cores <= usize::MAX / 5,
    ensures
        cores <= slots_for(cores),
        2 * slots_for(cores) <= 3 * cores,
{
}

/// The id of a node that was given none: the host's name, or one made of the
/// process and the time.
pub fn auto_node_id(hostname: Option<String>, process: u32, now_millis: u128) -> (r: String)
    ensures
        r@ == if option_view(hostname) is Some && option_view(hostname)->0.len() > 0 {
            option_view(hostname)->0
        } else {
            "node-"@ + numeral(process as nat) + "-"@ + numeral(now_millis as nat)
        },
{
    if let Some(name) = hostname {
        if !name.as_str().is_empty() {
            return name;
        }
    }
    let mut out = joined("node-", numeral_text(process as u128).as_str(), "-");
    out.push_str(numeral_text(now_millis).as_str());
    out
}

/// What `humantime::parse_duration` makes of a text whose spans a `Duration` holds: a
/// span in nanoseconds, or what it says of the text.
pub uninterp spec fn human_duration(text: Seq<char>) -> Result<nat, Seq<char>>;

/// `humantime::parse_duration`, with its error as text. A span that it gives is what the
/// spans of the text come to. It panics on some texts whose spans come to more than a
/// `Duration` holds, such as `18446744073709551615s 1000ms`.
#[verifier::external_body]
fn humantime_span(value: &str) -> (r: Result<Duration, String>)
    requires
        span_total(value@) <= MAX_NANOS,
    ensures
        r matches Ok(span) ==> nanos(span) == span_total(value@),
        match r {
            Ok(span) => human_duration(value@) == Ok::<nat, Seq<char>>(nanos(span)),
            Err(text) => human_duration(value@) == Err::<nat, Seq<char>>(text@),
        },
{
    humantime::parse_duration(value).map_err(|err| err.to_string())
}

/// What is said of spans that come to more than a `Duration` holds.
pub const SPAN_TOO_LONG: &'static str = "number is too large or cannot be represented without a lack of precision (values below 1ns are not supported)";

/// Reads a span of time as people write it, such as `5s`. Spans that come to more than
/// a `Duration` holds are an error, and are not handed on.
pub fn parse_duration(value: &str) -> (r: Result<Duration, String>)
    ensures
        if span_total(value@) > MAX_NANOS {
            r is Err && r->Err_0@ == SPAN_TOO_LONG@
        } else {
            match r {
                Ok(span) => human_duration(value@) == Ok::<nat, Seq<char>>(nanos(span)),
                Err(text) => human_duration(value@) == Err::<nat, Seq<char>>(text@),
            }
        },
        r matches Ok(span) ==> nanos(span) == span_total(value@),
{
    if !spans_fit(value) {
        return Err(SPAN_TOO_LONG.to_owned());
    }
    humantime_span(value)
}

proof fn lemma_filled_in(head: Seq<char>, tail: Seq<char>, pattern: Seq<char>, with: Seq<char>)
    requires
        pattern.len() > 1,
        !head.contains(pattern[0]),
        !tail.contains(pattern[0]),
    ensures
        replaced(head + pattern + tail, pattern, with) == head + with + tail,
        occurs(head + pattern + tail, pattern),
{
    let s = head + pattern + tail;
    assert forall|i: int| 0 <= i < head.len() implies !begins_with(#[trigger] s.skip(i), pattern) by {
        if begins_with(s.skip(i), pattern) {
            assert(s.skip(i).take(pattern.len() as int)[0] == pattern[0]);
            assert(s.skip(i)[0] == head[i]);
        }
    }
    law_the_pattern_is_replaced(head, pattern, tail, with);
    assert forall|i: int| 0 <= i <= tail.len() - pattern.len() implies #[trigger] tail.subrange(
        i,
        i + pattern.len(),
    ) != pattern by {
        assert(tail.subrange(i, i + pattern.len())[0] == tail[i]);
    }
    law_nothing_is_replaced_without_the_pattern(tail, pattern, with);
}

/// A style of a namespace is found at the namespace's template, with the rest of the id
/// where the template leaves room for it.
pub proof fn law_styles_are_found_in_their_namespace(
    templates: TemplatesView,
    i: int,
    head: Seq<char>,
    tail: Seq<char>,
    rest: Seq<char>,
)
    requires
        0 <= i < templates.namespaces.len(),
        templates.namespaces[i].1 == head + "{style_id}"@ + tail,
        !templates.namespaces[i].0.contains('/'),
        !head.contains('{'),
        !tail.contains('{'),
        forall|j: int|
            0 <= j < templates.namespaces.len() && j != i ==> (#[trigger] templates.namespaces[j]).0
                != templates.namespaces[i].0,
    ensures
        style_url_of(templates, templates.namespaces[i].0.push('/') + rest) == Some(
            head + rest + tail,
        ),
{
    reveal_strlit("{style_id}");
    let name = templates.namespaces[i].0;
    let id = name.push('/') + rest;
    law_the_first_mark_splits(name, '/', rest);
    assert(id.take(name.len() as int) =~= name);
    assert(id.skip(name.len() as int + 1) =~= rest);
    assert(lists(templates, name));
    lemma_filled_in(head, tail, "{style_id}"@, rest);
}

/// A style of no namespace is found at the default template, with its whole id where the
/// template leaves room for it, and nowhere if there is no default.
pub proof fn law_other_styles_are_found_at_the_default(
    templates: TemplatesView,
    head: Seq<char>,
    tail: Seq<char>,
    id: Seq<char>,
    namespace: Seq<char>,
    rest: Seq<char>,
)
    requires
        !namespace.contains('/'),
        !head.contains('{'),
        !tail.contains('{'),
        id == namespace.push('/') + rest && (forall|j: int|
            0 <= j < templates.namespaces.len() ==> (#[trigger] templates.namespaces[j]).0
                != namespace) || !id.contains('/'),
    ensures
        templates.default == Some(head + "{style_id}"@ + tail) ==> style_url_of(templates, id)
            == Some(head + id + tail),
        templates.default is None ==> style_url_of(templates, id) is None,
{
    reveal_strlit("{style_id}");
    if !id.contains('/') {
        law_the_first_mark_splits(id, '/', rest);
    } else {
        law_the_first_mark_splits(namespace, '/', rest);
        assert(id.take(namespace.len() as int) =~= namespace);
    }
    lemma_filled_in(head, tail, "{style_id}"@, id);
}

/// A tileset is found at the template, with its id where the template leaves room for it.
pub proof fn law_tilesets_are_found_at_the_template(
    head: Seq<char>,
    tail: Seq<char>,
    id: Seq<char>,
)
    requires
        !head.contains('{'),
        !tail.contains('{'),
    ensures
        replaced(head + "{tileset_id}"@ + tail, tileset_placeholder(), id) == head + id + tail,
{
    reveal_strlit("{tileset_id}");
    lemma_filled_in(head, tail, "{tileset_id}"@, id);
}

/// An entry is a namespace, an equals sign and a template; the namespace `default` stands
/// for none.
pub proof fn law_entries_name_their_namespace(key: Seq<char>, template: Seq<char>)
    requires
        key.len() > 0,
        forall|i: int|
            0 <= i < key.len() ==> 33 <= #[trigger] key[i] as u32 <= 126 && key[i] != ':' && key[i]
                != '/' && key[i] != ';' && key[i] != '=' && key[i] != '{' && key[i] != '}',
        template.len() > 0,
        33 <= template[0] as u32 <= 126,
        33 <= template.last() as u32 <= 126,
    ensures
        entry_of(key.push('=') + template).template == template,
        key != "default"@ ==> entry_of(key.push('=') + template).namespace == Some(key),
        key == "default"@ ==> entry_of(key.push('=') + template).namespace is None,
{
    let entry = key.push('=') + template;
    assert(!key.contains('=')) by {
        if key.contains('=') {
            let i = choose|i: int| 0 <= i < key.len() && key[i] == '=';
            assert(33 <= key[i] as u32);
        }
    }
    law_the_first_mark_splits(key, '=', template);
    assert(entry.take(key.len() as int) =~= key);
    assert(entry.skip(key.len() as int + 1) =~= template);
    assert(33 <= key[0] as u32 <= 126);
    assert(33 <= key[key.len() - 1] as u32 <= 126);
    law_trimming_cuts_the_ends(key, ' ');
    law_trimming_cuts_the_ends(template, ' ');
    assert forall|i: int| 0 <= i < key.len() implies !outside_namespaces(#[trigger] key[i]) by {
        assert(33 <= key[i] as u32 <= 126);
    }
}

/// A template that stands alone is one without a namespace, whatever equals signs its
/// address holds.
pub proof fn law_bare_entries_are_templates(entry: Seq<char>, i: int)
    requires
        !entry.contains('=') || 0 <= i < position(entry, '=') && (entry[i] == ':' || entry[i] == '/')
            && !space(entry[0]) && !space(entry[position(entry, '=') - 1]),
    ensures
        entry_of(entry).namespace is None,
        entry_of(entry).template == entry,
{
    lemma_position(entry, '=');
    if !entry.contains('=') {
        law_the_first_mark_splits(entry, '=', entry);
    } else {
        let p = position(entry, '=');
        let key = entry.take(p);
        assert(key[0] == entry[0]);
        assert(key.last() == entry[p - 1]);
        assert(trimmed(key) == key);
        assert(outside_namespaces(key[i]));
    }
}

/// A template that is accepted joins those before it: one with a namespace at the end of
/// the namespaces, one without as the default. Nothing else changes.
pub proof fn law_entries_join_those_before(templates: TemplatesView, entry: EntryView)
    requires
        with_entry(templates, entry) is Ok,
    ensures
        entry.namespace matches Some(namespace) ==> {
            &&& with_entry(templates, entry)->Ok_0.namespaces == templates.namespaces.push(
                (namespace, entry.template),
            )
            &&& with_entry(templates, entry)->Ok_0.default == templates.default
            &&& forall|i: int|
                0 <= i < templates.namespaces.len() ==> (#[trigger] templates.namespaces[i]).0
                    != namespace
        },
        entry.namespace is None ==> {
            &&& with_entry(templates, entry)->Ok_0.namespaces == templates.namespaces
            &&& with_entry(templates, entry)->Ok_0.default == Some(entry.template)
            &&& templates.default is None
        },
{
}

/// A template is refused if it is no template of a web address with room for a style, or
/// if its place is taken; and for nothing else.
pub proof fn law_entries_are_refused_for_cause(templates: TemplatesView, entry: EntryView)
    ensures
        style_fault(entry.template, "default"@) is None && (match entry.namespace {
            Some(namespace) => forall|i: int|
                0 <= i < templates.namespaces.len() ==> (#[trigger] templates.namespaces[i]).0
                    != namespace,
            None => templates.default is None,
        }) ==> with_entry(templates, entry) is Ok,
        with_entry(templates, entry) is Ok ==> style_fault(entry.template, "default"@) is None,
{
}

proof fn lemma_entries_push(templates: TemplatesView, entries: Seq<Seq<char>>, entry: Seq<char>)
    ensures
        with_entries(templates, entries.push(entry)) == match with_entries(templates, entries) {
            Err(fault) => Err(fault),
            Ok(before) => if trimmed(entry).len() == 0 {
                Ok(before)
            } else {
                with_entry(before, entry_of(trimmed(entry)))
            },
        },
    decreases entries.len(),
{
    let all = entries.push(entry);
    if entries.len() == 0 {
        assert(all.skip(1) =~= entries);
        let first = trimmed(entry);
        if first.len() > 0 {
            match with_entry(templates, entry_of(first)) {
                Ok(next) => assert(with_entries(next, all.skip(1)) == Ok::<
                    TemplatesView,
                    TemplateFault,
                >(next)),
                Err(_) => {},
            }
        }
    } else {
        assert(all.skip(1) =~= entries.skip(1).push(entry));
        let first = trimmed(entries[0]);
        if first.len() == 0 {
            lemma_entries_push(templates, entries.skip(1), entry);
        } else {
            match with_entry(templates, entry_of(first)) {
                Ok(next) => lemma_entries_push(next, entries.skip(1), entry),
                Err(_) => {},
            }
        }
    }
}

/// Templates are read one after another: those before the last, then the last. An empty
/// entry counts for nothing, and the first fault ends it.
pub proof fn law_templates_are_read_in_order(
    templates: TemplatesView,
    entries: Seq<Seq<char>>,
    entry: Seq<char>,
)
    requires
        with_entries(templates, entries) is Ok,
    ensures
        with_entries(templates, Seq::empty()) == Ok::<TemplatesView, TemplateFault>(templates),
        trimmed(entry).len() == 0 ==> with_entries(templates, entries.push(entry)) == with_entries(
            templates,
            entries,
        ),
        trimmed(entry).len() > 0 ==> with_entries(templates, entries.push(entry)) == with_entry(
            with_entries(templates, entries)->Ok_0,
            entry_of(trimmed(entry)),
        ),
{
    lemma_entries_push(templates, entries, entry);
}

/// One template is read from a text that holds no semicolon.
pub proof fn law_one_template_is_read(raw: Seq<char>)
    requires
        !raw.contains(';'),
        trimmed(raw).len() > 0,
    ensures
        templates_of(raw) is Ok <==> style_fault(entry_of(trimmed(raw)).template, "default"@)
            is None,
        templates_of(raw) matches Ok(t) ==> match entry_of(trimmed(raw)).namespace {
            Some(namespace) => t.namespaces == seq![
                (namespace, entry_of(trimmed(raw)).template),
            ] && t.default is None,
            None => t.namespaces.len() == 0 && t.default == Some(entry_of(trimmed(raw)).template),
        },
{
    law_the_first_mark_splits(raw, ';', raw);
    let none = Seq::<Seq<char>>::empty();
    assert(seq![raw] =~= none.push(raw));
    assert(with_entries(no_templates(), none) is Ok);
    law_templates_are_read_in_order(no_templates(), none, raw);
    law_entries_are_refused_for_cause(no_templates(), entry_of(trimmed(raw)));
}

/// A template is one of a web address: it is not empty, holds the room that it should, and
/// with the room filled it is an address of `http` or `https`.
pub proof fn law_templates_are_web_addresses(template: Seq<char>, label: Seq<char>)
    ensures
        style_fault(template, label) is None <==> template.len() > 0 && occurs(
            template,
            "{style_id}"@,
        ) && url_parse(replaced(template, "{style_id}"@, "sample/style"@)) is Ok && (url_parse(
            replaced(template, "{style_id}"@, "sample/style"@),
        )->Ok_0.scheme == "http"@ || url_parse(
            replaced(template, "{style_id}"@, "sample/style"@),
        )->Ok_0.scheme == "https"@),
        tileset_fault(template) is None <==> template.len() > 0 && occurs(
            template,
            "{tileset_id}"@,
        ) && url_parse(replaced(template, "{tileset_id}"@, "sample/tileset"@)) is Ok && (url_parse(
            replaced(template, "{tileset_id}"@, "sample/tileset"@),
        )->Ok_0.scheme == "http"@ || url_parse(
            replaced(template, "{tileset_id}"@, "sample/tileset"@),
        )->Ok_0.scheme == "https"@),
{
}

/// What was given is what a node runs with; what was not given is what the host says.
pub proof fn law_given_options_are_kept(given: GivenOptions, host: HostDefaults, options: Options)
    requires
        resolves(given, host, options),
    ensures
        templates_of(given.style_templates@) is Ok,
        options.style_templates@ == templates_of(given.style_templates@)->Ok_0,
        (forall|i: int|
            0 <= i < given.gossip_seeds@.len() ==> (#[trigger] given.gossip_seeds@[i])@.len() > 0)
            ==> text_views(options.gossip_seeds@) == text_views(given.gossip_seeds@),
        options.cluster == given.cluster,
        options.http_bind == given.http_bind,
        options.gossip_bind == given.gossip_bind,
        options.sla == given.sla,
        options.tileset_url_template@ == given.tileset_url_template@,
        options.source_cache_capacity == given.source_cache_capacity,
        options.render_output_cache_capacity_bytes == given.render_output_cache_bytes,
        options.internal_bind.ip == given.http_bind.ip,
        options.internal_bind.port == given.internal_port,
        given.internal_advertise_addr matches Some(address) ==> options.internal_advertise_addr
            == address,
        given.internal_advertise_addr is None ==> options.internal_advertise_addr
            == options.internal_bind,
        given.node_id matches Some(id) ==> options.node_id@ == id@,
        given.node_id is None ==> options.node_id@ == host.node_id@,
        given.maplibre_cache_path matches Some(path) ==> options.maplibre_cache_path@ == path@,
        given.maplibre_cache_path is None ==> options.maplibre_cache_path@
            == host.maplibre_cache_path@,
        given.cores matches Some(n) ==> n >= 1 ==> options.cores == n,
        given.cores is None && host.cores >= 1 ==> options.cores == host.cores,
        options.cores >= 1,
        given.debug_render_permits matches Some(n) ==> n >= 1 ==> options.render_permits_per_node
            == n,
        given.debug_render_permits is None ==> options.render_permits_per_node == options.cores,
        given.debug_cpu_render_permits matches Some(n) ==> 1 <= n <= options.render_permits_per_node
            ==> options.cpu_render_permits_per_node == n,
        given.debug_cpu_render_permits is None ==> options.cpu_render_permits_per_node
            == options.render_permits_per_node,
        given.debug_renderer_slots matches Some(n) ==> n >= options.render_permits_per_node
            ==> options.renderer_slots_per_node == n,
        given.debug_renderer_slots is None && given.debug_render_permits is None && options.cores
            <= usize::MAX / 5 ==> options.renderer_slots_per_node == slots_for(options.cores as nat),
{
    if options.cores <= usize::MAX / 5 {
        law_default_slots(options.cores as nat);
    }
    let seeds = text_views(given.gossip_seeds@);
    if forall|i: int|
        0 <= i < given.gossip_seeds@.len() ==> (#[trigger] given.gossip_seeds@[i])@.len() > 0 {
        assert forall|i: int| 0 <= i < seeds.len() implies (#[trigger] seeds[i]).len() > 0 by {
            assert(seeds[i] == given.gossip_seeds@[i]@);
        }
        lemma_filled_seeds(seeds);
    }
}

proof fn lemma_filled_seeds(seeds: Seq<Seq<char>>)
    requires
        forall|i: int| 0 <= i < seeds.len() ==> (#[trigger] seeds[i]).len() > 0,
    ensures
        seeds_of(seeds) == seeds,
    decreases seeds.len(),
{
    reveal(Seq::filter);
    if seeds.len() > 0 {
        let front = seeds.drop_last();
        assert forall|i: int| 0 <= i < front.len() implies (#[trigger] front[i]).len() > 0 by {
            assert(front[i] == seeds[i]);
        }
        lemma_filled_seeds(front);
        assert(seeds[seeds.len() - 1].len() > 0);
        assert(front.push(seeds.last()) =~= seeds);
    } else {
        assert(seeds_of(seeds) =~= seeds);
    }
}

/// By default there are five slots for four cores, rounded up, unless that is more than
/// three for two.
pub proof fn law_default_slots_stand_by(cores: nat)
    requires
        2 <= cores <= usize::MAX / 5,
    ensures
        5 * cores <= 4 * slots_for(cores) < 5 * cores + 4,
        slots_for(1) == 1,
{
}

/// Options are refused for their templates, for seeds without a cluster, and for a cluster
/// that would be told to come to no address in particular; and for nothing else.
pub proof fn law_options_are_refused_for_cause(given: GivenOptions, i: int)
    requires
        templates_of(given.style_templates@) is Ok,
        tileset_fault(given.tileset_url_template@) is None,
    ensures
        given.internal_advertise_addr matches Some(address) ==> given.cluster ==> (accepts(given)
            <==> address.ip != IpAddress::V4(0) && address.ip != IpAddress::V6(0)),
        given.cluster && given.internal_advertise_addr is None ==> (accepts(given)
            <==> given.http_bind.ip != IpAddress::V4(0) && given.http_bind.ip != IpAddress::V6(0)),
        !given.cluster && 0 <= i < given.gossip_seeds@.len() && given.gossip_seeds@[i]@.len() > 0
            ==> !accepts(given),
        !given.cluster && (forall|j: int|
            0 <= j < given.gossip_seeds@.len() ==> (#[trigger] given.gossip_seeds@[j])@.len() == 0)
            ==> accepts(given),
{
    let seeds = text_views(given.gossip_seeds@);
    let filled = |seed: Seq<char>| seed.len() > 0;
    assert(seeds_of(seeds) == seeds.filter(filled));
    if !given.cluster && 0 <= i < given.gossip_seeds@.len() && given.gossip_seeds@[i]@.len() > 0 {
        assert(seeds[i] == given.gossip_seeds@[i]@);
        seeds.lemma_filter_contains(filled, i);
        assert(seeds.filter(filled).contains(seeds[i]));
    }
    if !given.cluster && (forall|j: int|
        0 <= j < given.gossip_seeds@.len() ==> (#[trigger] given.gossip_seeds@[j])@.len() == 0) {
        if seeds.filter(filled).len() > 0 {
            let seed = seeds.filter(filled)[0];
            seeds.lemma_filter_pred(filled, 0);
            assert(seeds.filter(filled).contains(seed));
            seeds.lemma_filter_contains_rev(filled, seed);
            let j = choose|j: int| 0 <= j < seeds.len() && seeds[j] == seed;
            assert(given.gossip_seeds@[j]@.len() == 0);
        }
    }
}

/// An error names the first thing that is wrong: the templates, then the tileset, then the
/// seeds without a cluster or the address that is none.
pub proof fn law_errors_name_what_is_wrong(given: GivenOptions, e: OptionsError)
    requires
        refuses(given, e),
    ensures
        templates_of(given.style_templates@) is Err <==> e is Templates,
        e is Tileset ==> tileset_fault(given.tileset_url_template@) is Some,
        e is SeedsWithoutCluster ==> !given.cluster,
        e is WildcardAdvertise ==> given.cluster,
        e is WildcardAdvertise ==> (given.internal_advertise_addr matches Some(address) ==> (
        address.ip == IpAddress::V4(0) || address.ip == IpAddress::V6(0))),
        !accepts(given),
{
}

/// An error says what is wrong, and why an address is none where the parser said so.
pub proof fn law_errors_say_what_is_wrong(label: String, reason: String, text: String)
    ensures
        OptionsError::SeedsWithoutCluster.text() == "use --cluster to enable cluster mode"@,
        OptionsError::WildcardAdvertise.text()
            == "cluster mode needs a non-wildcard --internal-advertise-addr"@,
        OptionsError::Templates(TemplateError::NotAUrl { label, reason }).cause() == Some(reason@),
        OptionsError::Tileset(TilesetError::NotAUrl { reason }).cause() == Some(reason@),
        OptionsError::SeedsWithoutCluster.cause() is None,
        OptionsError::Templates(TemplateError::Empty { label }).text() == "style template for "@
            + label@ + " must not be empty"@,
        OptionsError::Templates(TemplateError::NoPlaceholder { label }).text()
            == "style template for "@ + label@ + " must contain {style_id}"@,
        OptionsError::Templates(TemplateError::NotAUrl { label, reason }).text()
            == "parse style template for "@ + label@,
        OptionsError::Templates(TemplateError::Scheme { scheme: text }).text()
            == "style URL scheme "@ + debug_text(text@)
            + " is not supported; expected http or https"@,
        OptionsError::Templates(TemplateError::DuplicateNamespace { namespace: text }).text()
            == "BIEI_STYLE_TEMPLATES has duplicate namespace "@ + debug_text(text@),
        OptionsError::Tileset(TilesetError::Scheme { scheme: text }).text()
            == "tileset URL scheme "@ + debug_text(text@)
            + " is not supported; expected http or https"@,
{
}

/// A faulty template is refused under the name of its namespace, and one without a
/// namespace as the default.
pub proof fn law_faulty_entries_are_named(templates: TemplatesView, entry: EntryView)
    ensures
        entry.namespace is None ==> (style_fault(entry.template, "default"@) matches Some(fault)
            ==> with_entry(templates, entry) == Err::<TemplatesView, TemplateFault>(fault)),
        entry.namespace is Some ==> (style_fault(entry.template, entry.namespace->0) matches Some(
            fault,
        ) ==> with_entry(templates, entry) == Err::<TemplatesView, TemplateFault>(fault)),
{
}

} // verus!
