//! The Toxiproxy backend: network faults through the HTTP API of a Toxiproxy
//! server. The requests themselves are made by the caller; the backend's
//! state (the toxics it has added) and the addresses it talks to are kept
//! here.

use vstd::prelude::*;
use crate::text::{joined, trim_end, trim_end_char, lemma_trim_end, texts};

verus! {

/// Network fault injection through a Toxiproxy server.
pub struct ToxiproxyBackend {
    api_url: String,
    proxy_name: String,
    toxic_names: Vec<String>,
}

/// What a Toxiproxy backend holds.
pub struct ToxiproxyState {
    /// The server's API address, without trailing '/'.
    pub api_url: Seq<char>,
    /// The proxy whose traffic is degraded.
    pub proxy_name: Seq<char>,
    /// The toxics this backend has added and not yet removed, in order.
    pub toxics: Seq<Seq<char>>,
}

impl ToxiproxyState {
    /// The state after the recorded toxics are handed out for removal.
    pub open spec fn cleared(self) -> ToxiproxyState {
        ToxiproxyState { toxics: Seq::empty(), ..self }
    }

    /// The state after the toxic `name` is recorded as added.
    pub open spec fn recorded(self, name: Seq<char>) -> ToxiproxyState {
        ToxiproxyState { toxics: self.toxics.push(name), ..self }
    }
}

impl View for ToxiproxyBackend {
    type V = ToxiproxyState;

    closed spec fn view(&self) -> ToxiproxyState {
        ToxiproxyState {
            api_url: self.api_url@,
            proxy_name: self.proxy_name@,
            toxics: texts(self.toxic_names@),
        }
    }
}

/// The name of the latency toxic the backend adds.
pub open spec fn latency_toxic() -> Seq<char> {
    "stress_latency"@
}

impl ToxiproxyBackend {
    /// A backend for proxy `proxy_name` of the server at `api_url`, which is
    /// kept without its trailing '/' characters; no toxic is recorded yet.
    pub fn new(api_url: &str, proxy_name: &str) -> (b: Self)
        ensures
            b@.api_url == trim_end(api_url@, '/'),
            b@.api_url.len() == 0 || b@.api_url.last() != '/',
            b@.proxy_name == proxy_name@,
            b@.toxics == Seq::<Seq<char>>::empty(),
    {
        proof {
            lemma_trim_end(api_url@, '/');
        }
        let b = ToxiproxyBackend {
            api_url: trim_end_char(api_url, '/'),
            proxy_name: String::from_str(proxy_name),
            toxic_names: Vec::new(),
        };
        assert(texts(b.toxic_names@) =~= Seq::<Seq<char>>::empty());
        b
    }

    /// The server's API address.
    pub fn api_url(&self) -> (s: &str)
        ensures
            s@ == self@.api_url,
    {
        self.api_url.as_str()
    }

    /// The proxy whose traffic is degraded.
    pub fn proxy_name(&self) -> (s: &str)
        ensures
            s@ == self@.proxy_name,
    {
        self.proxy_name.as_str()
    }

    /// The toxics added and not yet removed.
    pub fn toxic_names(&self) -> (names: &Vec<String>)
        ensures
            texts(names@) == self@.toxics,
    {
        &self.toxic_names
    }

    /// The full address of an API path.
    pub fn url(&self, path: &str) -> (s: String)
        ensures
            s@ == self@.api_url + path@,
    {
        joined(self.api_url.as_str(), path)
    }

    /// The API path of the proxy: `/proxies/{name}`.
    pub fn proxy_path(&self) -> (s: String)
        ensures
            s@ == "/proxies/"@ + self@.proxy_name,
    {
        joined("/proxies/", self.proxy_name.as_str())
    }

    /// The API path of the proxy's toxics: `/proxies/{name}/toxics`.
    pub fn toxics_path(&self) -> (s: String)
        ensures
            s@ == "/proxies/"@ + self@.proxy_name + "/toxics"@,
    {
        let mut s = joined("/proxies/", self.proxy_name.as_str());
        s.append("/toxics");
        s
    }

    /// The API path of one toxic: `/proxies/{name}/toxics/{toxic}`.
    pub fn toxic_path(&self, toxic: &str) -> (s: String)
        ensures
            s@ == "/proxies/"@ + self@.proxy_name + "/toxics/"@ + toxic@,
    {
        let mut s = joined("/proxies/", self.proxy_name.as_str());
        s.append("/toxics/");
        s.append(toxic);
        s
    }

    /// Hands out the recorded toxics, in the order they were added, for
    /// removal; none stays recorded, whether or not its removal succeeds.
    pub fn take_toxics(&mut self) -> (names: Vec<String>)
        ensures
            texts(names@) == old(self)@.toxics,
            final(self)@ == old(self)@.cleared(),
    {
        let mut names: Vec<String> = Vec::new();
        std::mem::swap(&mut names, &mut self.toxic_names);
        assert(texts(self.toxic_names@) =~= Seq::<Seq<char>>::empty());
        names
    }

    /// Hands out the API paths of the recorded toxics, in the order they were
    /// added, for removal; none stays recorded, whether or not its removal
    /// succeeds.
    pub fn take_toxic_paths(&mut self) -> (paths: Vec<String>)
        ensures
            texts(paths@) == old(self)@.toxics.map_values(
                |t: Seq<char>| "/proxies/"@ + old(self)@.proxy_name + "/toxics/"@ + t,
            ),
            final(self)@ == old(self)@.cleared(),
    {
        let ghost before = self@;
        let names = self.take_toxics();
        let mut paths: Vec<String> = Vec::new();
        let mut i: usize = 0;
        while i < names.len()
            invariant
                self@ == before.cleared(),
                texts(names@) == before.toxics,
                i <= names@.len(),
                texts(paths@) == before.toxics.take(i as int).map_values(
                    |t: Seq<char>| "/proxies/"@ + before.proxy_name + "/toxics/"@ + t,
                ),
            decreases names@.len() - i,
        {
            let path = self.toxic_path(names[i].as_str());
            let ghost prev = paths@;
            paths.push(path);
            proof {
                assert(texts(names@)[i as int] == names@[i as int]@);
                assert(before.toxics.take(i + 1) =~= before.toxics.take(i as int).push(
                    names@[i as int]@,
                ));
                assert(texts(paths@) =~= texts(prev).push(path@));
                assert(texts(paths@) =~= before.toxics.take(i + 1).map_values(
                    |t: Seq<char>| "/proxies/"@ + before.proxy_name + "/toxics/"@ + t,
                ));
            }
            i = i + 1;
        }
        assert(before.toxics.take(names@.len() as int) =~= before.toxics);
        paths
    }

    /// Records that the toxic `name` was added.
    pub fn record_toxic(&mut self, name: String)
        ensures
            final(self)@ == old(self)@.recorded(name@),
    {
        self.toxic_names.push(name);
        assert(texts(self.toxic_names@) =~= texts(old(self).toxic_names@).push(name@));
    }

    /// The name of the latency toxic the backend adds.
    pub fn latency_toxic_name() -> (s: String)
        ensures
            s@ == latency_toxic(),
    {
        String::from_str("stress_latency")
    }

    /// The error given when the API refuses or cannot be reached.
    pub fn api_error(detail: &str) -> (e: String)
        ensures
            e@ == "Toxiproxy API error: "@ + detail@,
    {
        joined("Toxiproxy API error: ", detail)
    }

    /// The error given when the API's answer is not JSON.
    pub fn json_error(detail: &str) -> (e: String)
        ensures
            e@ == "JSON parse error: "@ + detail@,
    {
        joined("JSON parse error: ", detail)
    }

    /// The backend's name.
    pub fn name(&self) -> (s: &'static str)
        ensures
            s@ == "toxiproxy"@,
    {
        "toxiproxy"
    }

    /// The error for the faults this backend does not inject.
    pub fn network_only_error() -> (e: String)
        ensures
            e@ == "ToxiproxyBackend only handles network faults"@,
    {
        String::from_str("ToxiproxyBackend only handles network faults")
    }
}

/// Law: applying network degradation first removes what the backend had
/// added and then records the new latency toxic, so afterwards exactly that
/// one toxic is recorded, whatever the state before; the address and proxy
/// never change.
pub proof fn lemma_degradation_leaves_one_toxic(s: ToxiproxyState)
    ensures
        s.cleared().recorded(latency_toxic()).toxics == seq![latency_toxic()],
        s.cleared().recorded(latency_toxic()).api_url == s.api_url,
        s.cleared().recorded(latency_toxic()).proxy_name == s.proxy_name,
        s.cleared().cleared() == s.cleared(),
{
    assert(s.cleared().recorded(latency_toxic()).toxics =~= seq![latency_toxic()]);
}

} // verus!
