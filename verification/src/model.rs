use vstd::prelude::*;

verus! {

/// A named reference to a downloadable file belonging to an Item.
///
/// Before download the href points at the remote source; after a successful
/// download it is rewritten to `./<file name>`, relative, so the Item stays
/// portable beside its assets. The remaining metadata is opaque to the
/// download machinery and is carried through unchanged.
pub struct Asset {
    /// Where the asset's bytes live.
    pub href: String,
    /// Human-readable title.
    pub title: Option<String>,
    /// Media type of the asset's bytes.
    pub media_type: Option<String>,
    /// Roles the asset plays for its Item.
    pub roles: Vec<String>,
}

/// A typed relationship from a catalog entity to another resource.
pub struct Link {
    /// The relation type, e.g. "self" or "canonical".
    pub rel: String,
    /// The target of the relation.
    pub href: String,
}

impl View for Link {
    type V = (Seq<char>, Seq<char>);

    /// A link is, to the contracts, its (relation, href) pair of characters.
    open spec fn view(&self) -> (Seq<char>, Seq<char>) {
        (self.rel@, self.href@)
    }
}

/// The characters behind an optional string.
pub open spec fn opt_view(o: Option<String>) -> Option<Seq<char>> {
    match o {
        Some(s) => Some(s@),
        None => None,
    }
}

/// Whether the string holds exactly these characters.
pub fn string_is(s: &String, t: &str) -> (b: bool)
    ensures
        b == (s@ == t@),
{
    let other = String::from_str(t);
    s.eq(&other)
}

/// A catalog entity describing one piece of data and its downloadable assets.
pub struct Item {
    /// Unique identifier of the entity.
    pub id: String,
    /// Where the Item was read from; absent for Items built from scratch.
    /// Relative link hrefs are resolved against this location.
    pub base_href: Option<String>,
    /// The asset mapping: asset key to Asset, keys unique within the Item.
    pub assets: Vec<(String, Asset)>,
    /// The Item's links, in order.
    pub links: Vec<Link>,
}

impl Item {
    /// Asset keys are unique within the Item.
    pub open spec fn wf(self) -> bool {
        forall|i: int, j: int|
            0 <= i < j < self.assets@.len() ==> self.assets@[i].0@ != self.assets@[j].0@
    }
}

/// What a fetched catalog document turned out to be. The download operation
/// works on Items alone; every other kind is turned away with its name.
pub enum CatalogValue {
    /// An Item, ready for the download batch.
    Item(Item),
    /// Any other kind of catalog entity, by the name of its kind.
    Other(String),
}

/// Admit a fetched value into the download operation only when it is an
/// Item; anything else is refused with a message naming its kind.
pub fn require_item(value: CatalogValue) -> (r: Result<Item, String>)
    ensures
        value matches CatalogValue::Item(item) ==> r == Ok::<Item, String>(item),
        value matches CatalogValue::Other(name) ==> r matches Err(m) && m@ == "STAC value is a "@
            + name@ + ", not an Item"@,
{
    match value {
        CatalogValue::Item(item) => Ok(item),
        CatalogValue::Other(name) => {
            let mut m = String::from_str("STAC value is a ");
            m.append(name.as_str());
            m.append(", not an Item");
            Err(m)
        },
    }
}

/// Take ownership of every (key, asset) pair in the Item's asset mapping,
/// leaving the mapping empty. The batch hands each pair to its own fetch
/// task and merges the survivors back once every task has settled.
pub fn take_assets(item: &mut Item) -> (pairs: Vec<(String, Asset)>)
    ensures
        pairs@ == old(item).assets@,
        final(item).assets@.len() == 0,
        final(item).id == old(item).id,
        final(item).base_href == old(item).base_href,
        final(item).links == old(item).links,
{
    let mut pairs: Vec<(String, Asset)> = Vec::new();
    std::mem::swap(&mut item.assets, &mut pairs);
    pairs
}

} // verus!
