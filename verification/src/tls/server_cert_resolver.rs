use vstd::prelude::*;
use vstd::string::StringSliceAdditionalSpecFns;
use crate::sn::service::peer_table::{KeyedTable, TableKey};
use crate::sockets::server_name::{parse_server_name, spec_parse_server_name};
use crate::types::{bytes_eq, copy_bytes};

verus! {

/// A key of the server identity cache: the UTF-8 bytes of a name or of an
/// id's text.
pub struct IdentityKey(pub Vec<u8>);

impl View for IdentityKey {
    type V = Seq<u8>;

    open spec fn view(&self) -> Seq<u8> {
        self.0@
    }
}

impl TableKey for IdentityKey {
    fn same_key(&self, other: &Self) -> (r: bool) {
        bytes_eq(self.0.as_slice(), other.0.as_slice())
    }

    fn copy_key(&self) -> (r: Self) {
        IdentityKey(copy_bytes(&self.0))
    }
}

/// The key of a text.
fn key_of(s: &str) -> (r: IdentityKey)
    ensures
        r@ == s.spec_bytes(),
{
    IdentityKey(vstd::slice::slice_to_vec(s.as_bytes()))
}

/// A server identity as the cache keeps it: its name, its id's text and
/// the identity itself.
pub struct ServerIdentity<V> {
    pub name: String,
    pub id_text: String,
    pub identity: V,
}

/// The identities a TLS server can present, each under its name and under
/// its id's text.
pub struct ServerIdentityCache<V> {
    devices: KeyedTable<IdentityKey, ServerIdentity<V>>,
}

impl<V> View for ServerIdentityCache<V> {
    type V = Map<Seq<u8>, ServerIdentity<V>>;

    closed spec fn view(&self) -> Map<Seq<u8>, ServerIdentity<V>> {
        self.devices@
    }
}

/// The cache after adding an identity under `name` and `id_text`.
pub open spec fn spec_added<V>(
    m: Map<Seq<u8>, ServerIdentity<V>>,
    name: String,
    id_text: String,
    under_name: V,
    under_id: V,
) -> Map<Seq<u8>, ServerIdentity<V>> {
    m.insert(vstd::utf8::encode_utf8(name@), ServerIdentity { name, id_text, identity: under_name }).insert(
        vstd::utf8::encode_utf8(id_text@),
        ServerIdentity { name, id_text, identity: under_id },
    )
}

/// The cache after removing what `key` names.
pub open spec fn spec_removed<V>(m: Map<Seq<u8>, ServerIdentity<V>>, key: Seq<u8>) -> Map<
    Seq<u8>,
    ServerIdentity<V>,
> {
    if m.dom().contains(key) {
        let d = m[key];
        m.remove(key).remove(vstd::utf8::encode_utf8(d.id_text@)).remove(
            vstd::utf8::encode_utf8(d.name@),
        )
    } else {
        m
    }
}

/// An identity just added is found under its id's text, and under its
/// name unless the name and the id's text are the same text; removing it
/// by either key then leaves neither key in the cache.
pub proof fn lemma_added_identity_found_then_removed<V>(
    m: Map<Seq<u8>, ServerIdentity<V>>,
    name: String,
    id_text: String,
    under_name: V,
    under_id: V,
)
    ensures
        ({
            let a = spec_added(m, name, id_text, under_name, under_id);
            let nk = vstd::utf8::encode_utf8(name@);
            let ik = vstd::utf8::encode_utf8(id_text@);
            &&& a.dom().contains(ik) && a[ik].identity == under_id
            &&& nk != ik ==> a.dom().contains(nk) && a[nk].identity == under_name
            &&& !spec_removed(a, nk).dom().contains(nk) && !spec_removed(a, nk).dom().contains(ik)
            &&& !spec_removed(a, ik).dom().contains(nk) && !spec_removed(a, ik).dom().contains(ik)
        }),
{
}

impl<V> ServerIdentityCache<V> {
    pub closed spec fn wf(&self) -> bool {
        self.devices.wf()
    }

    pub fn new() -> (r: Self)
        ensures
            r.wf(),
            r@ == Map::<Seq<u8>, ServerIdentity<V>>::empty(),
    {
        ServerIdentityCache { devices: KeyedTable::new() }
    }

    /// Adds an identity under its name (`under_name`) and under its id's
    /// text (`under_id`), replacing what those keys held.
    pub fn add_server_identity(&mut self, name: String, id_text: String, under_name: V, under_id: V)
        requires
            old(self).wf(),
        ensures
            final(self).wf(),
            final(self)@ == spec_added(old(self)@, name, id_text, under_name, under_id),
    {
        let name_key = key_of(name.as_str());
        let id_key = key_of(id_text.as_str());
        let first = ServerIdentity { name: name.clone(), id_text: id_text.clone(), identity: under_name };
        self.devices.insert(name_key, first);
        self.devices.insert(id_key, ServerIdentity { name, id_text, identity: under_id });
    }

    /// Removes the identity under `key`, and with it whatever its id's text
    /// and its name name; nothing changes when `key` names none.
    pub fn remove_server_identity(&mut self, key: &str)
        requires
            old(self).wf(),
        ensures
            final(self).wf(),
            final(self)@ == spec_removed(old(self)@, key.spec_bytes()),
    {
        let k = key_of(key);
        match self.devices.remove(&k) {
            Some(device) => {
                let id_key = key_of(device.id_text.as_str());
                self.devices.remove(&id_key);
                let name_key = key_of(device.name.as_str());
                self.devices.remove(&name_key);
            },
            None => {},
        }
    }

    /// The identity under `key`.
    pub fn get_server_identity(&self, key: &str) -> (r: Option<&V>)
        requires
            self.wf(),
        ensures
            match r {
                Some(v) => self@.dom().contains(key.spec_bytes()) && *v == self@[key.spec_bytes()].identity,
                None => !self@.dom().contains(key.spec_bytes()),
            },
    {
        match self.devices.get_ref(&key_of(key)) {
            Some(d) => Some(&d.identity),
            None => None,
        }
    }

    /// The identity a TLS handshake asking for `server_name` is answered
    /// with: none without a server name, else the one under the name inside
    /// `p2p.<name>.com` (or under the server name itself when it has not
    /// that form).
    pub fn resolve(&self, server_name: Option<&str>) -> (r: Option<&V>)
        requires
            self.wf(),
        ensures
            server_name is None ==> r is None,
            server_name matches Some(n) ==> ({
                let k = spec_parse_server_name(n.spec_bytes());
                match r {
                    Some(v) => self@.dom().contains(k) && *v == self@[k].identity,
                    None => !self@.dom().contains(k),
                }
            }),
    {
        match server_name {
            None => None,
            Some(n) => {
                let name = parse_server_name(n);
                self.get_server_identity(name)
            },
        }
    }
}

} // verus!
