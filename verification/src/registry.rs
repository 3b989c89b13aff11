//! What stylesheets register, in the order in which they register it.

use crate::text;
use vstd::prelude::*;

verus! {

/// The types of bare value that a `--value(type)` argument can name.
#[derive(Debug, Clone, Copy, PartialEq, Eq, Structural)]
pub enum BareValueType {
    /// `number`
    Number,
    /// `integer`
    Integer,
    /// `ratio`
    Ratio,
    /// `percentage`
    Percentage,
}

/// The data types that a `--value([type])` argument can name.
#[derive(Debug, Clone, Copy, PartialEq, Eq, Structural)]
pub enum CssDataType {
    /// `color`
    Color,
    /// `length`
    Length,
    /// `percentage`
    Percentage,
    /// `number`
    Number,
    /// `integer`
    Integer,
    /// `ratio`
    Ratio,
    /// `angle`
    Angle,
    /// `url`
    Url,
    /// `position`
    Position,
    /// `bg-size`
    BgSize,
    /// `line-width`
    LineWidth,
    /// `image`
    Image,
    /// `absolute-size`
    AbsoluteSize,
    /// `relative-size`
    RelativeSize,
    /// `vector`
    Vector,
}

/// One argument of a `--value(…)` or `--modifier(…)` call.
#[derive(Debug, PartialEq, Eq)]
pub enum ValueShape {
    /// A theme key behind this prefix.
    Theme(String),
    /// A bare value of this type.
    Bare(BareValueType),
    /// An arbitrary value, of this type if one is named.
    Arbitrary(Option<CssDataType>),
    /// This very text.
    Literal(String),
}

/// What a [ValueShape] says.
pub enum ShapeModel {
    /// A theme key behind this prefix.
    Theme(Seq<char>),
    /// A bare value of this type.
    Bare(BareValueType),
    /// An arbitrary value, of this type if one is named.
    Arbitrary(Option<CssDataType>),
    /// This very text.
    Literal(Seq<char>),
}

impl View for ValueShape {
    type V = ShapeModel;

    open spec fn view(&self) -> ShapeModel {
        match self {
            ValueShape::Theme(prefix) => ShapeModel::Theme(prefix@),
            ValueShape::Bare(bare) => ShapeModel::Bare(*bare),
            ValueShape::Arbitrary(data_type) => ShapeModel::Arbitrary(*data_type),
            ValueShape::Literal(literal) => ShapeModel::Literal(literal@),
        }
    }
}

/// What a list of shapes says.
pub open spec fn shapes_view(shapes: Seq<ValueShape>) -> Seq<ShapeModel> {
    shapes.map_values(|shape: ValueShape| shape@)
}

/// What an optional list of shapes says.
pub open spec fn optional_shapes_view(shapes: Option<Vec<ValueShape>>) -> Option<Seq<ShapeModel>> {
    match shapes {
        Some(list) => Some(shapes_view(list@)),
        None => None,
    }
}

/// One declaration of a functional `@utility name-* { … }`.
#[derive(Debug, PartialEq, Eq)]
pub struct FunctionalDecl {
    /// The position of the property in the property order.
    pub property: Option<u16>,
    /// The position that a `--tw-sort:` hint names.
    pub sort_hint: Option<u16>,
    /// The shapes of its `--value(…)` calls.
    pub value: Option<Vec<ValueShape>>,
    /// The shapes of its `--modifier(…)` calls.
    pub modifier: Option<Vec<ValueShape>>,
}

/// What a [FunctionalDecl] says.
pub struct DeclModel {
    /// The position of the property in the property order.
    pub property: Option<u16>,
    /// The position that a `--tw-sort:` hint names.
    pub sort_hint: Option<u16>,
    /// The shapes of its `--value(…)` calls.
    pub value: Option<Seq<ShapeModel>>,
    /// The shapes of its `--modifier(…)` calls.
    pub modifier: Option<Seq<ShapeModel>>,
}

impl View for FunctionalDecl {
    type V = DeclModel;

    open spec fn view(&self) -> DeclModel {
        DeclModel {
            property: self.property,
            sort_hint: self.sort_hint,
            value: optional_shapes_view(self.value),
            modifier: optional_shapes_view(self.modifier),
        }
    }
}

/// What a list of declarations says.
pub open spec fn decls_view(decls: Seq<FunctionalDecl>) -> Seq<DeclModel> {
    decls.map_values(|decl: FunctionalDecl| decl@)
}

/// A static utility: where its declarations sort, and how many there are.
#[derive(Debug, PartialEq, Eq)]
pub struct StaticUtility {
    /// The positions of its properties in the property order.
    pub sig: Vec<u16>,
    /// The number of its declarations.
    pub count: u8,
}

/// A functional utility: its declarations.
#[derive(Debug, PartialEq, Eq)]
pub struct FunctionalUtility {
    /// Its declarations, breadth first.
    pub decls: Vec<FunctionalDecl>,
}

/// A custom variant: what it emits.
#[derive(Debug, Clone, Copy, PartialEq, Eq)]
pub struct CustomVariant {
    /// `1` for at-rules, `2` for style rules.
    pub compounds: u8,
}

/// One thing that a stylesheet registers.
#[derive(Debug, PartialEq, Eq)]
pub enum Registration {
    /// A static utility under its name.
    StaticUtility(String, StaticUtility),
    /// A functional utility under its name.
    FunctionalUtility(String, FunctionalUtility),
    /// A custom variant under its name.
    CustomVariant(String, CustomVariant),
    /// A theme variable and its value.
    ThemeKey(String, String),
    /// Every theme variable that begins with this prefix is dropped.
    ClearThemeNamespace(String),
    /// Every theme variable is dropped.
    ClearAllThemeNamespaces,
}

/// What a [Registration] says.
pub enum RegistrationModel {
    /// A static utility: its name, its positions and its count.
    StaticUtility(Seq<char>, Seq<u16>, u8),
    /// A functional utility: its name and its declarations.
    FunctionalUtility(Seq<char>, Seq<DeclModel>),
    /// A custom variant: its name and what it emits.
    CustomVariant(Seq<char>, u8),
    /// A theme variable and its value.
    ThemeKey(Seq<char>, Seq<char>),
    /// Every theme variable that begins with this prefix is dropped.
    ClearThemeNamespace(Seq<char>),
    /// Every theme variable is dropped.
    ClearAllThemeNamespaces,
}

impl View for Registration {
    type V = RegistrationModel;

    open spec fn view(&self) -> RegistrationModel {
        match self {
            Registration::StaticUtility(name, utility) => RegistrationModel::StaticUtility(
                name@,
                utility.sig@,
                utility.count,
            ),
            Registration::FunctionalUtility(name, utility) => RegistrationModel::FunctionalUtility(
                name@,
                decls_view(utility.decls@),
            ),
            Registration::CustomVariant(name, variant) => RegistrationModel::CustomVariant(
                name@,
                variant.compounds,
            ),
            Registration::ThemeKey(name, value) => RegistrationModel::ThemeKey(name@, value@),
            Registration::ClearThemeNamespace(prefix) => RegistrationModel::ClearThemeNamespace(
                prefix@,
            ),
            Registration::ClearAllThemeNamespaces => RegistrationModel::ClearAllThemeNamespaces,
        }
    }
}

/// Everything that stylesheets registered so far, oldest first.
#[derive(Debug, PartialEq, Eq)]
pub struct TailwindRegistry {
    entries: Vec<Registration>,
}

impl View for TailwindRegistry {
    type V = Seq<RegistrationModel>;

    closed spec fn view(&self) -> Seq<RegistrationModel> {
        self.entries@.map_values(|entry: Registration| entry@)
    }
}

/// The positions and the count of the static utility last registered under
/// `name`.
pub open spec fn latest_static(log: Seq<RegistrationModel>, name: Seq<char>) -> Option<
    (Seq<u16>, u8),
>
    decreases log.len(),
{
    if log.len() == 0 {
        None
    } else {
        match log.last() {
            RegistrationModel::StaticUtility(n, sig, count) if n == name => Some((sig, count)),
            _ => latest_static(log.drop_last(), name),
        }
    }
}

/// The declarations of the functional utility last registered under `name`.
pub open spec fn latest_functional(log: Seq<RegistrationModel>, name: Seq<char>) -> Option<
    Seq<DeclModel>,
>
    decreases log.len(),
{
    if log.len() == 0 {
        None
    } else {
        match log.last() {
            RegistrationModel::FunctionalUtility(n, decls) if n == name => Some(decls),
            _ => latest_functional(log.drop_last(), name),
        }
    }
}

/// What the custom variant last registered under `name` emits.
pub open spec fn latest_variant(log: Seq<RegistrationModel>, name: Seq<char>) -> Option<u8>
    decreases log.len(),
{
    if log.len() == 0 {
        None
    } else {
        match log.last() {
            RegistrationModel::CustomVariant(n, compounds) if n == name => Some(compounds),
            _ => latest_variant(log.drop_last(), name),
        }
    }
}

/// What stylesheets say of one theme variable.
#[derive(Debug, Clone, Copy, PartialEq, Eq)]
pub enum ThemeLookup<'a> {
    /// It holds this value.
    Declared(&'a str),
    /// It was dropped, and not declared since.
    Cleared,
    /// Nothing: what the preset says stands.
    Untouched,
}

impl<'a> View for ThemeLookup<'a> {
    type V = ThemeState;

    open spec fn view(&self) -> ThemeState {
        match self {
            ThemeLookup::Declared(value) => ThemeState::Declared(value@),
            ThemeLookup::Cleared => ThemeState::Cleared,
            ThemeLookup::Untouched => ThemeState::Untouched,
        }
    }
}

/// What a [ThemeLookup] says.
pub enum ThemeState {
    /// It holds this value.
    Declared(Seq<char>),
    /// It was dropped, and not declared since.
    Cleared,
    /// Nothing: what the preset says stands.
    Untouched,
}

/// What stylesheets say of the theme variable `name`: the last registration
/// that concerns it decides.
pub open spec fn theme_state(log: Seq<RegistrationModel>, name: Seq<char>) -> ThemeState
    decreases log.len(),
{
    if log.len() == 0 {
        ThemeState::Untouched
    } else {
        match log.last() {
            RegistrationModel::ThemeKey(n, value) if n == name => ThemeState::Declared(value),
            RegistrationModel::ClearThemeNamespace(prefix) if prefix.is_prefix_of(
                name,
            ) => ThemeState::Cleared,
            RegistrationModel::ClearAllThemeNamespaces => ThemeState::Cleared,
            _ => theme_state(log.drop_last(), name),
        }
    }
}

/// What [BareValueType::from_keyword] tells apart.
pub open spec fn bare_value_type(keyword: Seq<char>) -> Option<BareValueType> {
    if keyword == "number"@ {
        Some(BareValueType::Number)
    } else if keyword == "integer"@ {
        Some(BareValueType::Integer)
    } else if keyword == "ratio"@ {
        Some(BareValueType::Ratio)
    } else if keyword == "percentage"@ {
        Some(BareValueType::Percentage)
    } else {
        None
    }
}

impl BareValueType {
    /// The type that a keyword names.
    pub fn from_keyword(keyword: &str) -> (bare: Option<BareValueType>)
        ensures
            bare == bare_value_type(keyword@),
    {
        if text::same_text(keyword, "number") {
            Some(BareValueType::Number)
        } else if text::same_text(keyword, "integer") {
            Some(BareValueType::Integer)
        } else if text::same_text(keyword, "ratio") {
            Some(BareValueType::Ratio)
        } else if text::same_text(keyword, "percentage") {
            Some(BareValueType::Percentage)
        } else {
            None
        }
    }
}

impl TailwindRegistry {
    /// A registry in which nothing is registered.
    pub fn new() -> (registry: TailwindRegistry)
        ensures
            registry@ == Seq::<RegistrationModel>::empty(),
    {
        let registry = TailwindRegistry { entries: Vec::new() };
        assert(registry@ == Seq::<RegistrationModel>::empty());
        registry
    }

    fn push(&mut self, entry: Registration)
        ensures
            final(self)@ == old(self)@.push(entry@),
    {
        self.entries.push(entry);
        assert(self@ == old(self)@.push(entry@));
    }

    /// Everything registered, oldest first.
    pub fn registrations(&self) -> (entries: &Vec<Registration>)
        ensures
            entries@.map_values(|entry: Registration| entry@) == self@,
    {
        &self.entries
    }

    /// Register a static utility.
    pub fn register_static_utility(&mut self, name: &str, sig: Vec<u16>, count: u8)
        ensures
            final(self)@ == old(self)@.push(
                RegistrationModel::StaticUtility(name@, sig@, count),
            ),
    {
        self.push(Registration::StaticUtility(name.to_owned(), StaticUtility { sig, count }));
    }

    /// Register a functional utility.
    pub fn register_functional_utility(&mut self, name: &str, decls: Vec<FunctionalDecl>)
        ensures
            final(self)@ == old(self)@.push(
                RegistrationModel::FunctionalUtility(name@, decls_view(decls@)),
            ),
    {
        self.push(Registration::FunctionalUtility(name.to_owned(), FunctionalUtility { decls }));
    }

    /// Register a custom variant.
    pub fn register_custom_variant(&mut self, name: &str, compounds: u8)
        ensures
            final(self)@ == old(self)@.push(RegistrationModel::CustomVariant(name@, compounds)),
    {
        self.push(Registration::CustomVariant(name.to_owned(), CustomVariant { compounds }));
    }

    /// Register a theme variable.
    pub fn register_theme_key(&mut self, name: &str, value: &str)
        ensures
            final(self)@ == old(self)@.push(RegistrationModel::ThemeKey(name@, value@)),
    {
        self.push(Registration::ThemeKey(name.to_owned(), value.to_owned()));
    }

    /// Drop every theme variable that begins with `prefix`.
    pub fn clear_theme_namespace(&mut self, prefix: &str)
        ensures
            final(self)@ == old(self)@.push(RegistrationModel::ClearThemeNamespace(prefix@)),
    {
        self.push(Registration::ClearThemeNamespace(prefix.to_owned()));
    }

    /// Drop every theme variable.
    pub fn clear_all_theme_namespaces(&mut self)
        ensures
            final(self)@ == old(self)@.push(RegistrationModel::ClearAllThemeNamespaces),
    {
        self.push(Registration::ClearAllThemeNamespaces);
    }

    /// The static utility last registered under `name`.
    pub fn custom_static(&self, name: &str) -> (found: Option<&StaticUtility>)
        ensures
            match found {
                Some(utility) => latest_static(self@, name@) == Some((utility.sig@, utility.count)),
                None => latest_static(self@, name@) is None,
            },
    {
        let mut i: usize = self.entries.len();
        assert(self@.take(i as int) == self@);
        while i > 0
            invariant
                i <= self.entries@.len(),
                self@.len() == self.entries@.len(),
                forall|j: int| 0 <= j < self@.len() ==> #[trigger] self@[j] == self.entries@[j]@,
                latest_static(self@, name@) == latest_static(self@.take(i as int), name@),
            decreases i,
        {
            i -= 1;
            assert(self@.take(i + 1).drop_last() == self@.take(i as int));
            if let Registration::StaticUtility(entry_name, utility) = &self.entries[i] {
                if text::same_text(entry_name.as_str(), name) {
                    return Some(utility);
                }
            }
        }
        None
    }

    /// The functional utility last registered under `name`.
    pub fn custom_functional(&self, name: &str) -> (found: Option<&FunctionalUtility>)
        ensures
            match found {
                Some(utility) => latest_functional(self@, name@) == Some(
                    decls_view(utility.decls@),
                ),
                None => latest_functional(self@, name@) is None,
            },
    {
        let mut i: usize = self.entries.len();
        assert(self@.take(i as int) == self@);
        while i > 0
            invariant
                i <= self.entries@.len(),
                self@.len() == self.entries@.len(),
                forall|j: int| 0 <= j < self@.len() ==> #[trigger] self@[j] == self.entries@[j]@,
                latest_functional(self@, name@) == latest_functional(self@.take(i as int), name@),
            decreases i,
        {
            i -= 1;
            assert(self@.take(i + 1).drop_last() == self@.take(i as int));
            if let Registration::FunctionalUtility(entry_name, utility) = &self.entries[i] {
                if text::same_text(entry_name.as_str(), name) {
                    return Some(utility);
                }
            }
        }
        None
    }

    /// The custom variant last registered under `name`.
    pub fn get_variant_entry(&self, name: &str) -> (found: Option<&CustomVariant>)
        ensures
            match found {
                Some(variant) => latest_variant(self@, name@) == Some(variant.compounds),
                None => latest_variant(self@, name@) is None,
            },
    {
        let mut i: usize = self.entries.len();
        assert(self@.take(i as int) == self@);
        while i > 0
            invariant
                i <= self.entries@.len(),
                self@.len() == self.entries@.len(),
                forall|j: int| 0 <= j < self@.len() ==> #[trigger] self@[j] == self.entries@[j]@,
                latest_variant(self@, name@) == latest_variant(self@.take(i as int), name@),
            decreases i,
        {
            i -= 1;
            assert(self@.take(i + 1).drop_last() == self@.take(i as int));
            if let Registration::CustomVariant(entry_name, variant) = &self.entries[i] {
                if text::same_text(entry_name.as_str(), name) {
                    return Some(variant);
                }
            }
        }
        None
    }

    /// What stylesheets say of the theme variable `name`.
    pub fn theme_lookup(&self, name: &str) -> (found: ThemeLookup<'_>)
        ensures
            found@ == theme_state(self@, name@),
    {
        let mut i: usize = self.entries.len();
        assert(self@.take(i as int) == self@);
        while i > 0
            invariant
                i <= self.entries@.len(),
                self@.len() == self.entries@.len(),
                forall|j: int| 0 <= j < self@.len() ==> #[trigger] self@[j] == self.entries@[j]@,
                theme_state(self@, name@) == theme_state(self@.take(i as int), name@),
            decreases i,
        {
            i -= 1;
            assert(self@.take(i + 1).drop_last() == self@.take(i as int));
            match &self.entries[i] {
                Registration::ThemeKey(entry_name, value) => {
                    if text::same_text(entry_name.as_str(), name) {
                        return ThemeLookup::Declared(value.as_str());
                    }
                },
                Registration::ClearThemeNamespace(prefix) => {
                    if text::has_prefix(name, prefix.as_str()) {
                        return ThemeLookup::Cleared;
                    }
                },
                Registration::ClearAllThemeNamespaces => {
                    return ThemeLookup::Cleared;
                },
                _ => {},
            }
        }
        ThemeLookup::Untouched
    }
}

} // verus!
