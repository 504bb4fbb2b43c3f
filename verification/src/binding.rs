use vstd::prelude::*;
use vstd::string::StringExecFns;

use crate::algo::blake3_hex_of;
use crate::algo::Algo;
use crate::algo::AlgoType;
use crate::text::dec_text;

verus! {

/// The adapter that a JavaScript host constructs by name: the name
/// "blake3" selects Blake3, any other name the default algorithm.
pub struct JsAlgo {
    inner: Algo,
}

impl JsAlgo {
    /// The wrapped algorithm instance.
    pub closed spec fn spec_inner(self) -> Algo {
        self.inner
    }

    pub fn new(name: String) -> (j: JsAlgo)
        ensures
            name@ == "blake3"@ ==> j.spec_inner().spec_kind() is Blake3,
            name@ != "blake3"@ ==> j.spec_inner().spec_kind() is Default,
    {
        let probe = String::from_str("blake3");
        let kind = if name == probe {
            AlgoType::Blake3
        } else {
            AlgoType::Default
        };
        JsAlgo { inner: Algo::new(kind) }
    }

    pub fn get_name(&self) -> (r: String)
        ensures
            self.spec_inner().spec_kind() is Blake3 ==> r@ == "Blake3"@,
            self.spec_inner().spec_kind() is Default ==> r@ == "Default"@,
    {
        String::from_str(self.inner.get_name())
    }

    pub fn hash(&self, data: String) -> (r: String)
        ensures
            self.spec_inner().spec_kind() is Blake3 ==> r@ == blake3_hex_of(data@) && r@.len()
                == 64,
            self.spec_inner().spec_kind() is Default ==> (exists|k: u64| r@ == dec_text(k as nat)),
    {
        self.inner.hash(data)
    }
}

} // verus!
