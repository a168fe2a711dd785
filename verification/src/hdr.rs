//! Finding out whether the screen is in HDR mode, one question to the device at a time.

use vstd::prelude::*;

verus! {

/// What the search wants to know next, or what it found.
#[derive(Clone, Copy, Debug, PartialEq, Eq, Structural)]
pub enum HdrAsk {
    /// Whether a connector is connected.
    Connector { connector: usize },
    /// How many properties a connector has.
    Properties { connector: usize },
    /// The name and the value of a property of a connector.
    Property { connector: usize, property: usize },
    /// How long a property blob is, to be answered for a property of a connector.
    Blob { connector: usize, property: usize, blob: u64 },
    /// Whether HDR is on.
    Done { hdr: bool },
}

/// A search through the connectors of a device and their properties, in order, that ends at the
/// first one that shows HDR.
#[derive(Clone, Copy, Debug, PartialEq, Eq, Structural)]
pub struct HdrSearch {
    connectors: usize,
    properties: usize,
    ask: HdrAsk,
}

/// A property of a connector: its name and value, where it can be read, and the length of the blob
/// that its value names, where there is one that can be read.
pub struct PropertyModel {
    pub name: Option<Seq<char>>,
    pub value: u64,
    pub blob: Option<nat>,
}

/// A connector: whether it is connected, and its properties, where each can be read.
pub struct ConnectorModel {
    pub connected: Option<bool>,
    pub properties: Option<Seq<PropertyModel>>,
}

/// Whether a colorspace is one of the three of BT.2020.
pub open spec fn is_bt2020(value: u64) -> bool {
    8 <= value <= 10
}

/// Whether a property shows HDR: a BT.2020 colorspace, or HDR metadata that are not empty.
pub open spec fn shows_hdr(p: PropertyModel) -> bool {
    ||| p.name == Some("Colorspace"@) && is_bt2020(p.value)
    ||| p.name == Some("HDR_OUTPUT_METADATA"@) && p.value != 0 && p.blob is Some && p.blob->0 > 0
}

/// Whether a connector is connected and one of its properties from `from` on shows HDR.
pub open spec fn connector_shows_hdr(c: ConnectorModel, from: int) -> bool {
    &&& c.connected == Some(true)
    &&& c.properties is Some
    &&& exists|j: int|
        from <= j < c.properties->0.len() && shows_hdr(#[trigger] c.properties->0[j])
}

/// Whether one of the connectors from `from` on shows HDR.
pub open spec fn device_shows_hdr(d: Seq<ConnectorModel>, from: int) -> bool {
    exists|i: int| from <= i < d.len() && connector_shows_hdr(#[trigger] d[i], 0)
}

/// What to ask about the connector at `connector`, or that there is none left.
pub open spec fn ask_connector(connectors: usize, connector: int) -> HdrAsk {
    if connector < connectors {
        HdrAsk::Connector { connector: connector as usize }
    } else {
        HdrAsk::Done { hdr: false }
    }
}

/// What to ask about the property at `property`, or about the next connector.
pub open spec fn ask_property(
    connectors: usize,
    connector: usize,
    properties: usize,
    property: int,
) -> HdrAsk {
    if property < properties {
        HdrAsk::Property { connector, property: property as usize }
    } else {
        ask_connector(connectors, connector + 1)
    }
}

/// The characters of a name.
pub open spec fn name_chars(name: Option<&String>) -> Option<Seq<char>> {
    match name {
        Some(name) => Some(name@),
        None => None,
    }
}

/// What to ask once it is known whether the connector is connected.
pub open spec fn after_connector(
    connectors: usize,
    ask: HdrAsk,
    connected: Option<bool>,
) -> HdrAsk {
    match ask {
        HdrAsk::Connector { connector } => if connected == Some(true) {
            HdrAsk::Properties { connector }
        } else {
            ask_connector(connectors, connector + 1)
        },
        _ => ask,
    }
}

/// What to ask once it is known how many properties the connector has.
pub open spec fn after_properties(connectors: usize, ask: HdrAsk, count: Option<usize>) -> HdrAsk {
    match ask {
        HdrAsk::Properties { connector } => match count {
            Some(n) => ask_property(connectors, connector, n, 0),
            None => ask_connector(connectors, connector + 1),
        },
        _ => ask,
    }
}

/// What to ask once the property is known.
pub open spec fn after_property(
    connectors: usize,
    properties: usize,
    ask: HdrAsk,
    name: Option<Seq<char>>,
    value: u64,
) -> HdrAsk {
    match ask {
        HdrAsk::Property { connector, property } => if name == Some("Colorspace"@) && is_bt2020(
            value,
        ) {
            HdrAsk::Done { hdr: true }
        } else if name == Some("HDR_OUTPUT_METADATA"@) && value != 0 {
            HdrAsk::Blob { connector, property, blob: value }
        } else {
            ask_property(connectors, connector, properties, property + 1)
        },
        _ => ask,
    }
}

/// What to ask once the length of the blob is known.
pub open spec fn after_blob(
    connectors: usize,
    properties: usize,
    ask: HdrAsk,
    len: Option<nat>,
) -> HdrAsk {
    match ask {
        HdrAsk::Blob { connector, property, .. } => if len is Some && len->0 > 0 {
            HdrAsk::Done { hdr: true }
        } else {
            ask_property(connectors, connector, properties, property + 1)
        },
        _ => ask,
    }
}

impl HdrSearch {
    /// How many connectors are searched.
    pub closed spec fn connectors(self) -> usize {
        self.connectors
    }

    /// How many properties the connector has that is being searched.
    pub closed spec fn properties(self) -> usize {
        self.properties
    }

    /// What the search wants to know next.
    pub closed spec fn spec_ask(self) -> HdrAsk {
        self.ask
    }

    /// The search is within its connectors and their properties.
    pub open spec fn wf(self) -> bool {
        match self.spec_ask() {
            HdrAsk::Connector { connector } => connector < self.connectors(),
            HdrAsk::Properties { connector } => connector < self.connectors(),
            HdrAsk::Property { connector, property } => connector < self.connectors() && property
                < self.properties(),
            HdrAsk::Blob { connector, property, .. } => connector < self.connectors() && property
                < self.properties(),
            HdrAsk::Done { .. } => true,
        }
    }

    /// A search of a device with the given number of connectors.
    pub fn new(connectors: usize) -> (r: HdrSearch)
        ensures
            r.wf(),
            r.connectors() == connectors,
            r.properties() == 0,
            r.spec_ask() == ask_connector(connectors, 0),
    {
        let ask: HdrAsk = if connectors > 0 {
            HdrAsk::Connector { connector: 0 }
        } else {
            HdrAsk::Done { hdr: false }
        };
        HdrSearch { connectors, properties: 0, ask }
    }

    /// What the search wants to know next.
    pub fn ask(&self) -> (r: HdrAsk)
        ensures
            r == self.spec_ask(),
    {
        self.ask
    }

    fn to_connector(&mut self, connector: usize)
        requires
            old(self).wf(),
        ensures
            final(self).wf(),
            final(self).connectors() == old(self).connectors(),
            final(self).properties() == old(self).properties(),
            final(self).spec_ask() == ask_connector(old(self).connectors(), connector as int),
    {
        self.ask = if connector < self.connectors {
            HdrAsk::Connector { connector }
        } else {
            HdrAsk::Done { hdr: false }
        };
    }

    fn to_property(&mut self, connector: usize, property: usize)
        requires
            old(self).wf(),
            connector < old(self).connectors(),
        ensures
            final(self).wf(),
            final(self).connectors() == old(self).connectors(),
            final(self).properties() == old(self).properties(),
            final(self).spec_ask() == ask_property(
                old(self).connectors(),
                connector,
                old(self).properties(),
                property as int,
            ),
    {
        if property < self.properties {
            self.ask = HdrAsk::Property { connector, property };
        } else {
            self.to_connector(connector + 1);
        }
    }

    /// Takes in whether the connector is connected, or that it could not be read. One that is not
    /// connected is passed over.
    pub fn on_connector(&mut self, connected: Option<bool>)
        requires
            old(self).wf(),
            old(self).spec_ask() is Connector,
        ensures
            final(self).wf(),
            final(self).connectors() == old(self).connectors(),
            final(self).properties() == old(self).properties(),
            final(self).spec_ask() == after_connector(
                old(self).connectors(),
                old(self).spec_ask(),
                connected,
            ),
    {
        if let HdrAsk::Connector { connector } = self.ask {
            match connected {
                Some(true) => {
                    self.ask = HdrAsk::Properties { connector };
                },
                _ => {
                    self.to_connector(connector + 1);
                },
            }
        }
    }

    /// Takes in how many properties the connector has, or that they could not be read. Then it is
    /// passed over.
    pub fn on_properties(&mut self, count: Option<usize>)
        requires
            old(self).wf(),
            old(self).spec_ask() is Properties,
        ensures
            final(self).wf(),
            final(self).connectors() == old(self).connectors(),
            final(self).properties() == (if count is Some {
                count->0
            } else {
                old(self).properties()
            }),
            final(self).spec_ask() == after_properties(
                old(self).connectors(),
                old(self).spec_ask(),
                count,
            ),
    {
        if let HdrAsk::Properties { connector } = self.ask {
            match count {
                Some(n) => {
                    self.properties = n;
                    self.to_property(connector, 0);
                },
                None => {
                    self.to_connector(connector + 1);
                },
            }
        }
    }

    /// Takes in the name and the value of the property, or that it could not be read. A BT.2020
    /// colorspace shows HDR; whether metadata do, their blob has yet to tell.
    pub fn on_property(&mut self, name: Option<&String>, value: u64)
        requires
            old(self).wf(),
            old(self).spec_ask() is Property,
        ensures
            final(self).wf(),
            final(self).connectors() == old(self).connectors(),
            final(self).properties() == old(self).properties(),
            final(self).spec_ask() == after_property(
                old(self).connectors(),
                old(self).properties(),
                old(self).spec_ask(),
                name_chars(name),
                value,
            ),
    {
        proof {
            reveal_strlit("Colorspace");
            reveal_strlit("HDR_OUTPUT_METADATA");
            assert("Colorspace"@[0] != "HDR_OUTPUT_METADATA"@[0]);
        }
        if let HdrAsk::Property { connector, property } = self.ask {
            if let Some(name) = name {
                if *name == "Colorspace".to_string() && value >= 8 && value <= 10 {
                    self.ask = HdrAsk::Done { hdr: true };
                    return ;
                }
                if *name == "HDR_OUTPUT_METADATA".to_string() && value != 0 {
                    self.ask = HdrAsk::Blob { connector, property, blob: value };
                    return ;
                }
            }
            self.to_property(connector, property + 1);
        }
    }

    /// Takes in how long the blob is, or that it could not be read. One that is not empty shows
    /// HDR.
    pub fn on_blob(&mut self, len: Option<usize>)
        requires
            old(self).wf(),
            old(self).spec_ask() is Blob,
        ensures
            final(self).wf(),
            final(self).connectors() == old(self).connectors(),
            final(self).properties() == old(self).properties(),
            final(self).spec_ask() == after_blob(
                old(self).connectors(),
                old(self).properties(),
                old(self).spec_ask(),
                (if len is Some {
                    Some(len->0 as nat)
                } else {
                    None
                }),
            ),
    {
        if let HdrAsk::Blob { connector, property, blob: _ } = self.ask {
            match len {
                Some(n) if n > 0 => {
                    self.ask = HdrAsk::Done { hdr: true };
                },
                _ => {
                    self.to_property(connector, property + 1);
                },
            }
        }
    }
}

/// Whether the connectors, and the properties of each, can be counted.
pub open spec fn is_countable(d: Seq<ConnectorModel>) -> bool {
    &&& d.len() <= usize::MAX
    &&& forall|i: int|
        0 <= i < d.len() && d[i].properties is Some ==> (#[trigger] d[i]).properties->0.len()
            <= usize::MAX
}

/// The property that is asked about.
pub open spec fn property_at(d: Seq<ConnectorModel>, connector: usize, property: usize) -> PropertyModel {
    d[connector as int].properties->0[property as int]
}

/// Whether a question, asked with `properties` properties counted, can come up in a search of a
/// device.
pub open spec fn can_ask(d: Seq<ConnectorModel>, properties: usize, ask: HdrAsk) -> bool {
    match ask {
        HdrAsk::Connector { connector } => connector < d.len(),
        HdrAsk::Properties { connector } => connector < d.len() && d[connector as int].connected
            == Some(true),
        HdrAsk::Property { connector, property } => {
            &&& connector < d.len()
            &&& d[connector as int].connected == Some(true)
            &&& d[connector as int].properties is Some
            &&& properties == d[connector as int].properties->0.len()
            &&& property < properties
        },
        HdrAsk::Blob { connector, property, blob } => {
            &&& connector < d.len()
            &&& d[connector as int].connected == Some(true)
            &&& d[connector as int].properties is Some
            &&& properties == d[connector as int].properties->0.len()
            &&& property < properties
            &&& property_at(d, connector, property).name == Some("HDR_OUTPUT_METADATA"@)
            &&& blob == property_at(d, connector, property).value
            &&& blob != 0
        },
        HdrAsk::Done { .. } => true,
    }
}

/// The properties counted and the next question, once a device has answered a question.
pub open spec fn answered(d: Seq<ConnectorModel>, properties: usize, ask: HdrAsk) -> (
    usize,
    HdrAsk,
) {
    let connectors = d.len() as usize;
    match ask {
        HdrAsk::Connector { connector } => (
            properties,
            after_connector(connectors, ask, d[connector as int].connected),
        ),
        HdrAsk::Properties { connector } => match d[connector as int].properties {
            Some(ps) => (
                ps.len() as usize,
                after_properties(connectors, ask, Some(ps.len() as usize)),
            ),
            None => (properties, after_properties(connectors, ask, None)),
        },
        HdrAsk::Property { connector, property } => {
            let p = property_at(d, connector, property);
            (properties, after_property(connectors, properties, ask, p.name, p.value))
        },
        HdrAsk::Blob { connector, property, .. } => (
            properties,
            after_blob(connectors, properties, ask, property_at(d, connector, property).blob),
        ),
        HdrAsk::Done { .. } => (properties, ask),
    }
}

/// The connectors that have not been finished.
pub open spec fn connectors_left(d: Seq<ConnectorModel>, ask: HdrAsk) -> int {
    match ask {
        HdrAsk::Connector { connector } => d.len() - connector,
        HdrAsk::Properties { connector } => d.len() - connector,
        HdrAsk::Property { connector, .. } => d.len() - connector,
        HdrAsk::Blob { connector, .. } => d.len() - connector,
        HdrAsk::Done { .. } => 0,
    }
}

/// How far the connector at hand is from having its properties asked about.
pub open spec fn steps_to_properties(ask: HdrAsk) -> int {
    match ask {
        HdrAsk::Connector { .. } => 2,
        HdrAsk::Properties { .. } => 1,
        _ => 0,
    }
}

/// The questions about properties that are left, at most two for each.
pub open spec fn property_steps_left(properties: usize, ask: HdrAsk) -> int {
    match ask {
        HdrAsk::Property { property, .. } => 2 * (properties - property) + 1,
        HdrAsk::Blob { property, .. } => 2 * (properties - property),
        _ => 0,
    }
}

/// What a search ends with when a device answers every question, from a given question on.
pub open spec fn search_result(d: Seq<ConnectorModel>, properties: usize, ask: HdrAsk) -> bool
    decreases
            connectors_left(d, ask),
            steps_to_properties(ask),
            property_steps_left(properties, ask),
        when is_countable(d) && can_ask(d, properties, ask)
{
    match ask {
        HdrAsk::Done { hdr } => hdr,
        _ => {
            let (n, next) = answered(d, properties, ask);
            search_result(d, n, next)
        },
    }
}

/// Whether what is left of a device, from a given question on, shows HDR.
spec fn rest_shows_hdr(d: Seq<ConnectorModel>, ask: HdrAsk) -> bool {
    match ask {
        HdrAsk::Connector { connector } => device_shows_hdr(d, connector as int),
        HdrAsk::Properties { connector } => connector_shows_hdr(d[connector as int], 0)
            || device_shows_hdr(d, connector + 1),
        HdrAsk::Property { connector, property } => connector_shows_hdr(
            d[connector as int],
            property as int,
        ) || device_shows_hdr(d, connector + 1),
        HdrAsk::Blob { connector, property, .. } => shows_hdr(property_at(d, connector, property))
            || connector_shows_hdr(d[connector as int], property + 1) || device_shows_hdr(
            d,
            connector + 1,
        ),
        HdrAsk::Done { hdr } => hdr,
    }
}

/// One answer changes neither what is left to find nor that the next question can come up.
proof fn lemma_answer(d: Seq<ConnectorModel>, properties: usize, ask: HdrAsk)
    requires
        is_countable(d),
        can_ask(d, properties, ask),
    ensures
        ({
            let (n, next) = answered(d, properties, ask);
            can_ask(d, n, next) && rest_shows_hdr(d, next) == rest_shows_hdr(d, ask)
        }),
{
    reveal_strlit("Colorspace");
    reveal_strlit("HDR_OUTPUT_METADATA");
    assert("Colorspace"@[0] != "HDR_OUTPUT_METADATA"@[0]);
    match ask {
        HdrAsk::Connector { connector } => {
            lemma_device_splits(d, connector as int);
        },
        HdrAsk::Properties { connector } => {},
        HdrAsk::Property { connector, property } => {
            lemma_connector_splits(d[connector as int], property as int);
        },
        HdrAsk::Blob { connector, property, .. } => {
            lemma_connector_splits(d[connector as int], property as int);
        },
        HdrAsk::Done { .. } => {},
    }
}

proof fn lemma_device_splits(d: Seq<ConnectorModel>, i: int)
    requires
        0 <= i < d.len(),
    ensures
        device_shows_hdr(d, i) == (connector_shows_hdr(d[i], 0) || device_shows_hdr(d, i + 1)),
{
    if device_shows_hdr(d, i) {
        let k = choose|k: int| i <= k < d.len() && connector_shows_hdr(#[trigger] d[k], 0);
        if k != i {
            assert(connector_shows_hdr(d[k], 0));
        }
    }
}

proof fn lemma_connector_splits(c: ConnectorModel, j: int)
    requires
        c.connected == Some(true),
        c.properties is Some,
        0 <= j < c.properties->0.len(),
    ensures
        connector_shows_hdr(c, j) == (shows_hdr(c.properties->0[j]) || connector_shows_hdr(
            c,
            j + 1,
        )),
{
    let ps = c.properties->0;
    if connector_shows_hdr(c, j) {
        let k = choose|k: int| j <= k < ps.len() && shows_hdr(#[trigger] ps[k]);
        if k != j {
            assert(shows_hdr(ps[k]));
        }
    }
}

proof fn lemma_search_from(d: Seq<ConnectorModel>, properties: usize, ask: HdrAsk)
    requires
        is_countable(d),
        can_ask(d, properties, ask),
    ensures
        search_result(d, properties, ask) == rest_shows_hdr(d, ask),
    decreases
            connectors_left(d, ask),
            steps_to_properties(ask),
            property_steps_left(properties, ask),
{
    if !(ask is Done) {
        lemma_answer(d, properties, ask);
        let (n, next) = answered(d, properties, ask);
        lemma_search_from(d, n, next);
    }
}

/// A search reports HDR exactly where a connected connector has a BT.2020 colorspace or HDR
/// metadata that are not empty, whatever could not be read.
pub proof fn lemma_search_finds_hdr(d: Seq<ConnectorModel>)
    requires
        is_countable(d),
    ensures
        search_result(d, 0, ask_connector(d.len() as usize, 0)) == device_shows_hdr(d, 0),
{
    lemma_search_from(d, 0, ask_connector(d.len() as usize, 0));
}

/// The mode that the command line asks for: HDR if it is forced, even where it is also disabled,
/// and nothing where neither is said.
pub fn hdr_override(force: bool, disable: bool) -> (r: Option<bool>)
    ensures
        r == (if force {
            Some(true)
        } else if disable {
            Some(false)
        } else {
            None
        }),
{
    if force {
        Some(true)
    } else if disable {
        Some(false)
    } else {
        None
    }
}

/// The mode that was last announced.
#[derive(Clone, Copy, Debug, PartialEq, Eq)]
pub struct HdrMode {
    last: Option<bool>,
}

impl HdrMode {
    /// The mode that was last announced.
    pub closed spec fn spec_last(self) -> Option<bool> {
        self.last
    }

    /// No mode has been announced.
    pub fn new() -> (r: HdrMode)
        ensures
            r.spec_last() is None,
    {
        HdrMode { last: None }
    }

    /// Takes in the mode of a frame, and says whether to announce it: the first, and every one
    /// that differs from the one before.
    pub fn update(&mut self, hdr: bool) -> (announce: bool)
        ensures
            announce == (old(self).spec_last() != Some(hdr)),
            final(self).spec_last() == Some(hdr),
    {
        let announce: bool = match self.last {
            Some(last) => last != hdr,
            None => true,
        };
        self.last = Some(hdr);
        announce
    }
}

/// Whether a question is answered as the device answers it.
pub open spec fn answers_as(d: Seq<ConnectorModel>, s: &mut HdrSearch) -> bool {
    match (*s).spec_ask() {
        HdrAsk::Connector { connector } => call_ensures(
            HdrSearch::on_connector,
            (s, d[connector as int].connected),
            (),
        ),
        HdrAsk::Properties { connector } => match d[connector as int].properties {
            Some(ps) => call_ensures(HdrSearch::on_properties, (s, Some(ps.len() as usize)), ()),
            None => call_ensures(HdrSearch::on_properties, (s, None), ()),
        },
        HdrAsk::Property { connector, property } => {
            let p = d[connector as int].properties->0[property as int];
            match p.name {
                Some(chars) => exists|name: &String|
                    name@ == chars && #[trigger] call_ensures(
                        HdrSearch::on_property,
                        (s, Some(name), p.value),
                        (),
                    ),
                None => call_ensures(HdrSearch::on_property, (s, None, p.value), ()),
            }
        },
        HdrAsk::Blob { connector, property, .. } => {
            match d[connector as int].properties->0[property as int].blob {
                Some(len) => len <= usize::MAX && call_ensures(
                    HdrSearch::on_blob,
                    (s, Some(len as usize)),
                    (),
                ),
                None => call_ensures(HdrSearch::on_blob, (s, None), ()),
            }
        },
        HdrAsk::Done { .. } => false,
    }
}

/// Whether a property says that the screen is in HDR mode: a colorspace numbered from 8 to 10, or
/// metadata with at least one byte.
pub open spec fn says_hdr(p: PropertyModel) -> bool {
    match p.name {
        Some(name) => {
            ||| name == "Colorspace"@ && (p.value == 8 || p.value == 9 || p.value == 10)
            ||| {
                &&& name == "HDR_OUTPUT_METADATA"@
                &&& p.value > 0
                &&& p.blob is Some
                &&& p.blob->0 >= 1
            }
        },
        None => false,
    }
}

/// What every search keeps: its next question can come up, and what is left says what all of the
/// device says.
spec fn search_holds(d: Seq<ConnectorModel>, s: HdrSearch) -> bool {
    &&& s.connectors() == d.len()
    &&& can_ask(d, s.properties(), s.spec_ask())
    &&& rest_shows_hdr(d, s.spec_ask()) == device_shows_hdr(d, 0)
}

proof fn lemma_answer_keeps(d: Seq<ConnectorModel>, s: &mut HdrSearch)
    requires
        is_countable(d),
        search_holds(d, *old(s)),
        answers_as(d, s),
    ensures
        search_holds(d, *final(s)),
        (final(s).properties(), final(s).spec_ask()) == answered(
            d,
            old(s).properties(),
            old(s).spec_ask(),
        ),
{
    lemma_answer(d, old(s).properties(), old(s).spec_ask());
}

proof fn lemma_search_keeps(d: Seq<ConnectorModel>, start: HdrSearch, calls: Seq<&mut HdrSearch>)
    requires
        is_countable(d),
        call_ensures(HdrSearch::new, (d.len() as usize,), start),
        forall|i: int| 0 <= i < calls.len() ==> #[trigger] answers_as(d, calls[i]),
        calls.len() > 0 ==> *calls[0] == start,
        forall|i: int|
            0 < i < calls.len() ==> *(#[trigger] calls[i]) == *final(calls[i - 1]),
    ensures
        calls.len() == 0 ==> search_holds(d, start),
        calls.len() > 0 ==> search_holds(d, *calls.last()) && search_holds(
            d,
            *final(calls.last()),
        ) && (final(calls.last()).properties(), final(calls.last()).spec_ask()) == answered(
            d,
            (*calls.last()).properties(),
            (*calls.last()).spec_ask(),
        ),
    decreases calls.len(),
{
    if calls.len() > 0 {
        let before = calls.drop_last();
        lemma_search_keeps(d, start, before);
        let s = calls.last();
        assert(answers_as(d, calls[calls.len() - 1]));
        if calls.len() > 1 {
            assert(*calls[calls.len() - 1] == *final(calls[calls.len() - 2]));
        }
        lemma_answer_keeps(d, s);
    }
}

/// However a search of a device went, when it is done it reports HDR exactly where some property of a
/// connected connector says so, as far as connectors, properties and blobs could be read.
pub proof fn lemma_search_reports_hdr(
    d: Seq<ConnectorModel>,
    start: HdrSearch,
    calls: Seq<&mut HdrSearch>,
    hdr: bool,
)
    requires
        is_countable(d),
        call_ensures(HdrSearch::new, (d.len() as usize,), start),
        forall|i: int| 0 <= i < calls.len() ==> #[trigger] answers_as(d, calls[i]),
        calls.len() > 0 ==> *calls[0] == start,
        forall|i: int|
            0 < i < calls.len() ==> *(#[trigger] calls[i]) == *final(calls[i - 1]),
        calls.len() == 0 ==> call_ensures(HdrSearch::ask, (&start,), HdrAsk::Done { hdr }),
        calls.len() > 0 ==> call_ensures(
            HdrSearch::ask,
            (&*final(calls.last()),),
            HdrAsk::Done { hdr },
        ),
    ensures
        hdr == exists|i: int, j: int|
            0 <= i < d.len() && d[i].connected == Some(true) && d[i].properties is Some && 0 <= j
                < d[i].properties->0.len() && says_hdr(#[trigger] d[i].properties->0[j]),
{
    lemma_search_keeps(d, start, calls);
    assert(forall|p: PropertyModel| says_hdr(p) == #[trigger] shows_hdr(p));
    if hdr {
        let i = choose|i: int| 0 <= i < d.len() && connector_shows_hdr(#[trigger] d[i], 0);
        let j = choose|j: int|
            0 <= j < d[i].properties->0.len() && shows_hdr(#[trigger] d[i].properties->0[j]);
        assert(says_hdr(d[i].properties->0[j]));
    }
    if exists|i: int, j: int|
        0 <= i < d.len() && d[i].connected == Some(true) && d[i].properties is Some && 0 <= j
            < d[i].properties->0.len() && says_hdr(#[trigger] d[i].properties->0[j]) {
        let (i, j) = choose|i: int, j: int|
            0 <= i < d.len() && d[i].connected == Some(true) && d[i].properties is Some && 0 <= j
                < d[i].properties->0.len() && says_hdr(#[trigger] d[i].properties->0[j]);
        assert(shows_hdr(d[i].properties->0[j]));
        assert(connector_shows_hdr(d[i], 0));
    }
}

/// How many questions a search can still ask about the connectors from `from` on: two about each, and
/// two about each of its properties.
pub open spec fn most_questions(d: Seq<ConnectorModel>, from: int) -> int
    decreases d.len() - from,
{
    if 0 <= from < d.len() {
        2 + (if d[from].properties is Some {
            2 * d[from].properties->0.len() as int
        } else {
            0
        }) + most_questions(d, from + 1)
    } else {
        0
    }
}

/// How many questions a search can still ask, the next one among them.
spec fn questions_left(d: Seq<ConnectorModel>, ask: HdrAsk) -> int {
    match ask {
        HdrAsk::Connector { connector } => most_questions(d, connector as int),
        HdrAsk::Properties { connector } => most_questions(d, connector as int) - 1,
        HdrAsk::Property { connector, property } => 2 * (d[connector as int].properties->0.len()
            - property) + most_questions(d, connector + 1),
        HdrAsk::Blob { connector, property, .. } => 2 * (d[connector as int].properties->0.len()
            - property) - 1 + most_questions(d, connector + 1),
        HdrAsk::Done { .. } => 0,
    }
}

proof fn lemma_most_questions_nonnegative(d: Seq<ConnectorModel>, from: int)
    ensures
        most_questions(d, from) >= 0,
    decreases d.len() - from,
{
    if 0 <= from < d.len() {
        lemma_most_questions_nonnegative(d, from + 1);
    }
}

proof fn lemma_answer_uses_up(d: Seq<ConnectorModel>, properties: usize, ask: HdrAsk)
    requires
        is_countable(d),
        can_ask(d, properties, ask),
        !(ask is Done),
    ensures
        0 <= questions_left(d, answered(d, properties, ask).1) < questions_left(d, ask),
{
    let c = match ask {
        HdrAsk::Connector { connector } => connector as int,
        HdrAsk::Properties { connector } => connector as int,
        HdrAsk::Property { connector, .. } => connector as int,
        HdrAsk::Blob { connector, .. } => connector as int,
        HdrAsk::Done { .. } => 0,
    };
    lemma_most_questions_nonnegative(d, c + 1);
    assert(most_questions(d, c) == 2 + (if d[c].properties is Some {
        2 * d[c].properties->0.len() as int
    } else {
        0
    }) + most_questions(d, c + 1));
}

proof fn lemma_questions_run_out(
    d: Seq<ConnectorModel>,
    start: HdrSearch,
    calls: Seq<&mut HdrSearch>,
)
    requires
        is_countable(d),
        call_ensures(HdrSearch::new, (d.len() as usize,), start),
        forall|i: int| 0 <= i < calls.len() ==> #[trigger] answers_as(d, calls[i]),
        calls.len() > 0 ==> *calls[0] == start,
        forall|i: int|
            0 < i < calls.len() ==> *(#[trigger] calls[i]) == *final(calls[i - 1]),
    ensures
        calls.len() == 0 ==> questions_left(d, start.spec_ask()) == most_questions(d, 0),
        calls.len() > 0 ==> 0 <= questions_left(d, final(calls.last()).spec_ask())
            <= most_questions(d, 0) - calls.len(),
    decreases calls.len(),
{
    lemma_search_keeps(d, start, calls);
    lemma_most_questions_nonnegative(d, 0);
    if calls.len() > 0 {
        let before = calls.drop_last();
        lemma_questions_run_out(d, start, before);
        if calls.len() > 1 {
            assert(*calls[calls.len() - 1] == *final(calls[calls.len() - 2]));
        }
        assert(answers_as(d, calls[calls.len() - 1]));
        lemma_answer_uses_up(d, (*calls.last()).properties(), (*calls.last()).spec_ask());
    }
}

/// A search comes to an end: it asks at most two questions about each connector and two about each
/// property.
pub proof fn lemma_search_ends(
    d: Seq<ConnectorModel>,
    start: HdrSearch,
    calls: Seq<&mut HdrSearch>,
)
    requires
        is_countable(d),
        call_ensures(HdrSearch::new, (d.len() as usize,), start),
        forall|i: int| 0 <= i < calls.len() ==> #[trigger] answers_as(d, calls[i]),
        calls.len() > 0 ==> *calls[0] == start,
        forall|i: int|
            0 < i < calls.len() ==> *(#[trigger] calls[i]) == *final(calls[i - 1]),
    ensures
        calls.len() <= most_questions(d, 0),
{
    lemma_questions_run_out(d, start, calls);
    lemma_most_questions_nonnegative(d, 0);
}

/// Forcing HDR is heeded whatever else is said, disabling it where it is not forced, and nothing is
/// decided for those who say neither.
pub proof fn lemma_override_heeds_force(force: bool, disable: bool, r: Option<bool>)
    requires
        call_ensures(hdr_override, (force, disable), r),
    ensures
        r == Some(true) <==> force,
        r == Some(false) <==> !force && disable,
{
}

/// A mode is announced at first, and from then on exactly where it differs from the one before.
pub proof fn lemma_modes_are_announced_on_change(
    a: &mut HdrMode,
    first: bool,
    first_announced: bool,
    b: &mut HdrMode,
    second: bool,
    second_announced: bool,
)
    requires
        call_ensures(HdrMode::update, (a, first), first_announced),
        *old(b) == *final(a),
        call_ensures(HdrMode::update, (b, second), second_announced),
    ensures
        call_ensures(HdrMode::new, (), *old(a)) ==> first_announced,
        second_announced <==> first != second,
{
}

} // verus!
