//! Pieces shared by the report rows of the tools: the network columns that
//! two of them print, and the tally of failed rows.

use vstd::prelude::*;
use crate::rdap::{
    cidr_blocks, cidr_texts, entity_name, or_empty, registrant_name, role_name, string_or_empty,
    NetworkInfo,
};
use crate::text::views;

verus! {

/// The columns that describe the IP network found for an address.
pub struct NetworkColumns {
    pub handle: String,
    /// The network's `name` field (empty when not reported).
    pub network_name: String,
    /// Name of the network's registrant (empty when not reported).
    pub registrant: String,
    pub abuse: String,
    pub administrative: String,
    pub technical: String,
    pub start_address: String,
    pub end_address: String,
    /// All CIDR blocks from the registry's `cidr0_cidrs` extension (empty if absent).
    pub cidr_blocks: Vec<String>,
}

/// The view of the network columns.
pub struct NetworkColumnsView {
    pub handle: Seq<char>,
    pub network_name: Seq<char>,
    pub registrant: Seq<char>,
    pub abuse: Seq<char>,
    pub administrative: Seq<char>,
    pub technical: Seq<char>,
    pub start_address: Seq<char>,
    pub end_address: Seq<char>,
    pub cidr_blocks: Seq<Seq<char>>,
}

impl View for NetworkColumns {
    type V = NetworkColumnsView;

    open spec fn view(&self) -> NetworkColumnsView {
        NetworkColumnsView {
            handle: self.handle@,
            network_name: self.network_name@,
            registrant: self.registrant@,
            abuse: self.abuse@,
            administrative: self.administrative@,
            technical: self.technical@,
            start_address: self.start_address@,
            end_address: self.end_address@,
            cidr_blocks: views(self.cidr_blocks@),
        }
    }
}

/// The columns for a network: its handle, name, the names of its registrant,
/// abuse, administrative and technical contacts (empty when not reported),
/// its start and end addresses and its CIDR blocks.
pub open spec fn columns_of(net: NetworkInfo) -> NetworkColumnsView {
    NetworkColumnsView {
        handle: or_empty(net.handle),
        network_name: or_empty(net.name),
        registrant: role_name(net.entities@, "registrant"@, Seq::empty()),
        abuse: role_name(net.entities@, "abuse"@, Seq::empty()),
        administrative: role_name(net.entities@, "administrative"@, Seq::empty()),
        technical: role_name(net.entities@, "technical"@, Seq::empty()),
        start_address: or_empty(net.start_address),
        end_address: or_empty(net.end_address),
        cidr_blocks: cidr_texts(net.cidrs@),
    }
}

/// The address columns of a found network are its own start and end
/// addresses (each empty when the network does not report it), and its
/// handle and name columns are its own handle and name in the same way.
pub proof fn network_columns_keep_addresses(net: NetworkInfo)
    ensures
        columns_of(net).start_address == (match net.start_address {
            Some(a) => a@,
            None => Seq::<char>::empty(),
        }),
        columns_of(net).end_address == (match net.end_address {
            Some(a) => a@,
            None => Seq::<char>::empty(),
        }),
        columns_of(net).handle == (match net.handle {
            Some(h) => h@,
            None => Seq::<char>::empty(),
        }),
        columns_of(net).network_name == (match net.name {
            Some(n) => n@,
            None => Seq::<char>::empty(),
        }),
{
}

/// The columns of a row that has no network: all empty.
pub open spec fn no_columns() -> NetworkColumnsView {
    NetworkColumnsView {
        handle: Seq::empty(),
        network_name: Seq::empty(),
        registrant: Seq::empty(),
        abuse: Seq::empty(),
        administrative: Seq::empty(),
        technical: Seq::empty(),
        start_address: Seq::empty(),
        end_address: Seq::empty(),
        cidr_blocks: Seq::empty(),
    }
}

impl NetworkColumns {
    /// The columns for `net`.
    pub fn from_network(net: &NetworkInfo) -> (c: NetworkColumns)
        ensures
            c@ == columns_of(*net),
    {
        NetworkColumns {
            handle: string_or_empty(&net.handle),
            network_name: string_or_empty(&net.name),
            registrant: registrant_name(net),
            abuse: entity_name(&net.entities, "abuse"),
            administrative: entity_name(&net.entities, "administrative"),
            technical: entity_name(&net.entities, "technical"),
            start_address: string_or_empty(&net.start_address),
            end_address: string_or_empty(&net.end_address),
            cidr_blocks: cidr_blocks(net),
        }
    }

    /// Empty columns, for a row without a network.
    pub fn empty() -> (c: NetworkColumns)
        ensures
            c@ == no_columns(),
    {
        let c = NetworkColumns {
            handle: String::new(),
            network_name: String::new(),
            registrant: String::new(),
            abuse: String::new(),
            administrative: String::new(),
            technical: String::new(),
            start_address: String::new(),
            end_address: String::new(),
            cidr_blocks: Vec::new(),
        };
        assert(views(c.cidr_blocks@) =~= Seq::<Seq<char>>::empty());
        c
    }
}

/// How many entries of `s` are `true`.
pub open spec fn count_true(s: Seq<bool>) -> nat
    decreases s.len(),
{
    if s.len() == 0 {
        0
    } else {
        count_true(s.drop_last()) + if s.last() {
            1nat
        } else {
            0nat
        }
    }
}

/// The tally never exceeds the length, and is zero exactly when no entry is `true`.
pub proof fn lemma_count_true(s: Seq<bool>)
    ensures
        count_true(s) <= s.len(),
        count_true(s) == 0 <==> forall|i: int| 0 <= i < s.len() ==> !#[trigger] s[i],
    decreases s.len(),
{
    if s.len() > 0 {
        lemma_count_true(s.drop_last());
        if count_true(s) == 0 {
            assert forall|i: int| 0 <= i < s.len() implies !#[trigger] s[i] by {
                if i < s.len() - 1 {
                    assert(s[i] == s.drop_last()[i]);
                }
            }
        } else {
            if !s.last() {
                let j = choose|j: int| 0 <= j < s.len() - 1 && #[trigger] s.drop_last()[j];
                assert(s[j]);
            }
        }
    }
}

} // verus!
