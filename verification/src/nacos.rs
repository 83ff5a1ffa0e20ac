//! The registry adapter's local state and decisions.
//!
//! The sessions to the naming and configuration services live outside the
//! library; what is kept and decided here is the local bookkeeping those
//! sessions feed: this process's own registration, the subscribed instance
//! lists as the registry last pushed them, the cached configuration
//! payloads, and the small normalisation rules applied when a session is
//! built.

use vstd::prelude::*;
use crate::keyed::{
    find_key_index, keyed_view, keys_distinct, lemma_upsert_props, spec_lookup_key, spec_upsert,
};
use crate::svc_discover::RawInstance;

verus! {

/// This process's own registration, as last recorded.
pub struct NamingState {
    pub service_name: String,
    pub group_name: Option<String>,
    pub service_instance: Vec<RawInstance>,
}

/// The adapter's local data: the registration state, the per-service
/// instance lists pushed by the naming service, and the configuration
/// payloads pushed or fetched, keyed by data id.
pub struct NacosNamingAndConfigData {
    pub state: NamingState,
    pub sub_svc_map: Vec<(String, Vec<RawInstance>)>,
    pub config_data_map: Vec<(String, String)>,
}

impl NacosNamingAndConfigData {
    /// A well-formed adapter keeps at most one entry per service and per
    /// data id.
    pub open spec fn wf(&self) -> bool {
        &&& keys_distinct(keyed_view(self.sub_svc_map@))
        &&& keys_distinct(keyed_view(self.config_data_map@))
    }

    /// Fresh adapter data: nothing registered, nothing subscribed, nothing
    /// cached.
    pub fn new() -> (r: Self)
        ensures
            r.state.service_name@.len() == 0,
            r.state.group_name is None,
            r.state.service_instance@.len() == 0,
            r.sub_svc_map@.len() == 0,
            r.config_data_map@.len() == 0,
            r.wf(),
    {
        let r = NacosNamingAndConfigData {
            state: NamingState {
                service_name: String::new(),
                group_name: None,
                service_instance: Vec::new(),
            },
            sub_svc_map: Vec::new(),
            config_data_map: Vec::new(),
        };
        proof {
            assert(keyed_view(r.sub_svc_map@) =~= Seq::<(Seq<char>, Vec<RawInstance>)>::empty());
            assert(keyed_view(r.config_data_map@) =~= Seq::<(Seq<char>, String)>::empty());
        }
        r
    }

    /// The recorded registration.
    pub fn get_state(&self) -> (r: &NamingState)
        ensures
            *r == self.state,
    {
        &self.state
    }

    /// Record this process's registration.
    pub fn update_state(&mut self, service_name: String, group_name: Option<String>, service_instance: Vec<RawInstance>)
        ensures
            final(self).state.service_name == service_name,
            final(self).state.group_name == group_name,
            final(self).state.service_instance == service_instance,
            final(self).sub_svc_map == old(self).sub_svc_map,
            final(self).config_data_map == old(self).config_data_map,
    {
        self.state = NamingState { service_name, group_name, service_instance };
    }

    /// Absorb one naming event: the delivered instance list replaces
    /// whatever was stored for the service.
    pub fn event(&mut self, service_name: &String, instances: Vec<RawInstance>)
        requires
            old(self).wf(),
        ensures
            keyed_view(final(self).sub_svc_map@) == spec_upsert(
                keyed_view(old(self).sub_svc_map@),
                service_name@,
                instances,
            ),
            spec_lookup_key(keyed_view(final(self).sub_svc_map@), service_name@) == Some(
                instances,
            ),
            final(self).state == old(self).state,
            final(self).config_data_map == old(self).config_data_map,
            final(self).wf(),
    {
        let ghost pre = keyed_view(self.sub_svc_map@);
        let ghost iv = instances;
        match find_key_index(&self.sub_svc_map, service_name) {
            Some(at) => {
                self.sub_svc_map.set(at, (service_name.clone(), instances));
            },
            None => {
                self.sub_svc_map.push((service_name.clone(), instances));
            },
        }
        proof {
            assert(keyed_view(self.sub_svc_map@) =~= spec_upsert(pre, service_name@, iv));
            lemma_upsert_props(pre, service_name@, iv);
        }
    }

    /// Absorb one configuration event: the delivered payload replaces
    /// whatever was cached for the data id.
    pub fn notify(&mut self, data_id: &String, content: String)
        requires
            old(self).wf(),
        ensures
            keyed_view(final(self).config_data_map@) == spec_upsert(
                keyed_view(old(self).config_data_map@),
                data_id@,
                content,
            ),
            spec_lookup_key(keyed_view(final(self).config_data_map@), data_id@) == Some(content),
            final(self).state == old(self).state,
            final(self).sub_svc_map == old(self).sub_svc_map,
            final(self).wf(),
    {
        let ghost pre = keyed_view(self.config_data_map@);
        let ghost cv = content;
        match find_key_index(&self.config_data_map, data_id) {
            Some(at) => {
                self.config_data_map.set(at, (data_id.clone(), content));
            },
            None => {
                self.config_data_map.push((data_id.clone(), content));
            },
        }
        proof {
            assert(keyed_view(self.config_data_map@) =~= spec_upsert(pre, data_id@, cv));
            lemma_upsert_props(pre, data_id@, cv);
        }
    }

    /// The cached configuration payload for `data_id`, if any.
    pub fn config_of(&self, data_id: &String) -> (r: Option<&String>)
        ensures
            match r {
                Some(c) => spec_lookup_key(keyed_view(self.config_data_map@), data_id@) == Some(
                    *c,
                ),
                None => spec_lookup_key(keyed_view(self.config_data_map@), data_id@) is None,
            },
    {
        match find_key_index(&self.config_data_map, data_id) {
            Some(at) => Some(&self.config_data_map[at].1),
            None => None,
        }
    }
}

/// The namespace actually sent to the registry: the distinguished public
/// namespace is addressed by the empty string.
pub fn normalize_namespace(namespace: &String) -> (r: String)
    ensures
        namespace@ == "public"@ ==> r@.len() == 0,
        namespace@ != "public"@ ==> r@ == namespace@,
{
    let public_name = String::from_str("public");
    if *namespace == public_name {
        String::new()
    } else {
        namespace.clone()
    }
}

/// Whether credentials were supplied: a session authenticates exactly when
/// a non-empty user name or a non-empty password is given.
pub fn needs_http_auth(username: &Option<String>, password: &Option<String>) -> (r: bool)
    ensures
        r == ((username matches Some(u) && u@.len() > 0) || (password matches Some(p) && p@.len()
            > 0)),
{
    let user_given = match username {
        Some(u) => !u.as_str().is_empty(),
        None => false,
    };
    let password_given = match password {
        Some(p) => !p.as_str().is_empty(),
        None => false,
    };
    user_given || password_given
}

} // verus!
