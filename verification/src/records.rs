//! The domain records, their caller-supplied payloads, their spec-level
//! models, and the codec that lays a whole record down as bytes.
//!
//! Each record has a model struct (its view), a spec-level encoding, an
//! executable encoder, and an executable decoder. The decoder's contract
//! states soundness and completeness against the spec encoding; together
//! with the encoder's contract that makes `decode(encode(r)) == r`
//! checkable wherever the pair is used.

use vstd::prelude::*;
use crate::codec::{enc_at, enc_u64, enc_bool, enc_str, enc_opt_u64, enc_u64_list, enc_str_list,
    enc_pair, enc_pair_list, str_views, pair_views};
use crate::codec::{write_u64, write_bool, write_str, write_opt_u64, write_u64_list,
    write_str_list, write_pair_list};
use crate::codec::{read_u64, read_bool, read_str, read_opt_u64, read_u64_list, read_str_list,
    read_pair_list};
use crate::codec::{lemma_enc_at_split, lemma_enc_at_join, lemma_enc_u64, lemma_enc_u64_det,
    lemma_enc_bool_det, lemma_enc_str_det, lemma_enc_opt_u64_det, lemma_enc_u64_list_det,
    lemma_enc_str_list_det, lemma_enc_pair_list_det};

verus! {

// ---------------------------------------------------------------------------
// records and payloads
// ---------------------------------------------------------------------------

/// A farmer: a registered producer with contact fields and the ids of the
/// products attributed to them.
#[derive(Debug, Clone)]
pub struct Farmer {
    pub id: u64,
    pub name: String,
    pub email: String,
    pub phone: String,
    pub product_ids: Vec<u64>,
    pub created_at: u64,
    pub updated_at: Option<u64>,
}

/// The caller-supplied fields of a farmer.
#[derive(Debug, Clone)]
pub struct FarmerPayload {
    pub name: String,
    pub email: String,
    pub phone: String,
}

// ---------------------------------------------------------------------------
// models: the spec-level value of a record
// ---------------------------------------------------------------------------

/// The mathematical value of a `Farmer`.
pub struct FarmerModel {
    pub id: u64,
    pub name: Seq<char>,
    pub email: Seq<char>,
    pub phone: Seq<char>,
    pub product_ids: Seq<u64>,
    pub created_at: u64,
    pub updated_at: Option<u64>,
}

impl View for Farmer {
    type V = FarmerModel;

    open spec fn view(&self) -> FarmerModel {
        FarmerModel {
            id: self.id,
            name: self.name@,
            email: self.email@,
            phone: self.phone@,
            product_ids: self.product_ids@,
            created_at: self.created_at,
            updated_at: self.updated_at,
        }
    }
}

// ---------------------------------------------------------------------------
// spec encoding
// ---------------------------------------------------------------------------

/// A farmer as bytes: each field in declaration order.
pub open spec fn enc_farmer(m: FarmerModel) -> Seq<u8> {
    enc_u64(m.id) + (enc_str(m.name) + (enc_str(m.email) + (enc_str(m.phone) + (enc_u64_list(
        m.product_ids,
    ) + (enc_u64(m.created_at) + enc_opt_u64(m.updated_at))))))
}

/// Where each field of an encoded farmer stands in a buffer.
pub proof fn lemma_enc_farmer_fields(b: Seq<u8>, pos: int, m: FarmerModel)
    requires
        enc_at(b, pos, enc_farmer(m)),
    ensures
        enc_at(b, pos, enc_u64(m.id)),
        enc_at(b, pos + 8, enc_str(m.name)),
        enc_at(b, pos + 8 + enc_str(m.name).len(), enc_str(m.email)),
        enc_at(b, pos + 8 + enc_str(m.name).len() + enc_str(m.email).len(), enc_str(m.phone)),
        enc_at(
            b,
            pos + 8 + enc_str(m.name).len() + enc_str(m.email).len() + enc_str(m.phone).len(),
            enc_u64_list(m.product_ids),
        ),
        enc_at(
            b,
            pos + 8 + enc_str(m.name).len() + enc_str(m.email).len() + enc_str(m.phone).len()
                + enc_u64_list(m.product_ids).len(),
            enc_u64(m.created_at),
        ),
        enc_at(
            b,
            pos + 16 + enc_str(m.name).len() + enc_str(m.email).len() + enc_str(m.phone).len()
                + enc_u64_list(m.product_ids).len(),
            enc_opt_u64(m.updated_at),
        ),
        enc_farmer(m).len() == 16 + enc_str(m.name).len() + enc_str(m.email).len() + enc_str(
            m.phone,
        ).len() + enc_u64_list(m.product_ids).len() + enc_opt_u64(m.updated_at).len(),
{
    lemma_enc_u64(m.id);
    lemma_enc_u64(m.created_at);
    let t1 = enc_str(m.name) + (enc_str(m.email) + (enc_str(m.phone) + (enc_u64_list(m.product_ids)
        + (enc_u64(m.created_at) + enc_opt_u64(m.updated_at)))));
    let t2 = enc_str(m.email) + (enc_str(m.phone) + (enc_u64_list(m.product_ids) + (enc_u64(
        m.created_at,
    ) + enc_opt_u64(m.updated_at))));
    let t3 = enc_str(m.phone) + (enc_u64_list(m.product_ids) + (enc_u64(m.created_at) + enc_opt_u64(
        m.updated_at,
    )));
    let t4 = enc_u64_list(m.product_ids) + (enc_u64(m.created_at) + enc_opt_u64(m.updated_at));
    let t5 = enc_u64(m.created_at) + enc_opt_u64(m.updated_at);
    lemma_enc_at_split(b, pos, enc_u64(m.id), t1);
    lemma_enc_at_split(b, pos + 8, enc_str(m.name), t2);
    lemma_enc_at_split(b, pos + 8 + enc_str(m.name).len(), enc_str(m.email), t3);
    lemma_enc_at_split(
        b,
        pos + 8 + enc_str(m.name).len() + enc_str(m.email).len(),
        enc_str(m.phone),
        t4,
    );
    lemma_enc_at_split(
        b,
        pos + 8 + enc_str(m.name).len() + enc_str(m.email).len() + enc_str(m.phone).len(),
        enc_u64_list(m.product_ids),
        t5,
    );
    lemma_enc_at_split(
        b,
        pos + 8 + enc_str(m.name).len() + enc_str(m.email).len() + enc_str(m.phone).len()
            + enc_u64_list(m.product_ids).len(),
        enc_u64(m.created_at),
        enc_opt_u64(m.updated_at),
    );
}

/// Two models with the same encoding are the same model.
pub proof fn lemma_enc_farmer_inj(b: Seq<u8>, m1: FarmerModel, m2: FarmerModel)
    requires
        b.len() < 0x1_0000_0000_0000_0000,
        b == enc_farmer(m1),
        b == enc_farmer(m2),
    ensures
        m1 == m2,
{
    assert(enc_at(b, 0, enc_farmer(m1)) && enc_at(b, 0, enc_farmer(m2))) by {
        assert(b.subrange(0, b.len() as int) =~= b);
    }
    lemma_enc_farmer_fields(b, 0, m1);
    lemma_enc_farmer_fields(b, 0, m2);
    lemma_enc_u64_det(b, 0, m1.id, m2.id);
    lemma_enc_str_det(b, 8, m1.name, m2.name);
    lemma_enc_str_det(b, 8int + enc_str(m1.name).len() as int, m1.email, m2.email);
    lemma_enc_str_det(
        b,
        8int + enc_str(m1.name).len() + enc_str(m1.email).len(),
        m1.phone,
        m2.phone,
    );
    lemma_enc_u64_list_det(
        b,
        8int + enc_str(m1.name).len() + enc_str(m1.email).len() + enc_str(m1.phone).len(),
        m1.product_ids,
        m2.product_ids,
    );
    lemma_enc_u64_det(
        b,
        8int + enc_str(m1.name).len() + enc_str(m1.email).len() + enc_str(m1.phone).len()
            + enc_u64_list(m1.product_ids).len(),
        m1.created_at,
        m2.created_at,
    );
    lemma_enc_opt_u64_det(
        b,
        16int + enc_str(m1.name).len() + enc_str(m1.email).len() + enc_str(m1.phone).len()
            + enc_u64_list(m1.product_ids).len(),
        m1.updated_at,
        m2.updated_at,
    );
}

// ---------------------------------------------------------------------------
// executable codec
// ---------------------------------------------------------------------------

pub fn encode_farmer(f: &Farmer) -> (out: Vec<u8>)
    ensures
        out@ == enc_farmer(f@),
{
    let mut out: Vec<u8> = Vec::new();
    write_u64(&mut out, f.id);
    write_str(&mut out, f.name.as_str());
    write_str(&mut out, f.email.as_str());
    write_str(&mut out, f.phone.as_str());
    write_u64_list(&mut out, &f.product_ids);
    write_u64(&mut out, f.created_at);
    write_opt_u64(&mut out, &f.updated_at);
    proof {
        assert(out@ =~= enc_farmer(f@));
    }
    out
}

#[verifier::rlimit(50)]
pub fn decode_farmer(buf: &Vec<u8>) -> (r: Option<Farmer>)
    ensures
        r matches Some(f) ==> buf@ == enc_farmer(f@),
        forall|m: FarmerModel| buf@ == enc_farmer(m) ==> (r matches Some(f) && f@ == m),
{
    let ghost has = exists|m: FarmerModel| buf@ == enc_farmer(m);
    let ghost m0 = choose|m: FarmerModel| buf@ == enc_farmer(m);
    proof {
        if has {
            assert(enc_at(buf@, 0, enc_farmer(m0))) by {
                assert(buf@.subrange(0, buf@.len() as int) =~= buf@);
            }
            lemma_enc_farmer_fields(buf@, 0, m0);
            lemma_enc_u64(m0.id);
        }
    }
    let r_id = read_u64(buf, 0);
    let (id, p1) = match r_id {
        Some(v) => v,
        None => {
            proof {
                if has {
                    assert(false);
                }
            }
            return None;
        },
    };
    proof {
        if has {
            lemma_enc_u64_det(buf@, 0, id, m0.id);
            assert(enc_at(buf@, p1 as int, enc_str(m0.name)));
        }
    }
    let r_name = read_str(buf, p1);
    let (name, p2) = match r_name {
        Some(v) => v,
        None => {
            proof {
                if has {
                    assert(false);
                }
            }
            return None;
        },
    };
    proof {
        if has {
            assert(name@ == m0.name);
            assert(enc_at(buf@, p2 as int, enc_str(m0.email)));
        }
    }
    let r_email = read_str(buf, p2);
    let (email, p3) = match r_email {
        Some(v) => v,
        None => {
            proof {
                if has {
                    assert(false);
                }
            }
            return None;
        },
    };
    proof {
        if has {
            assert(email@ == m0.email);
            assert(enc_at(buf@, p3 as int, enc_str(m0.phone)));
        }
    }
    let r_phone = read_str(buf, p3);
    let (phone, p4) = match r_phone {
        Some(v) => v,
        None => {
            proof {
                if has {
                    assert(false);
                }
            }
            return None;
        },
    };
    proof {
        if has {
            assert(phone@ == m0.phone);
            assert(enc_at(buf@, p4 as int, enc_u64_list(m0.product_ids)));
        }
    }
    let r_pids = read_u64_list(buf, p4);
    let (product_ids, p5) = match r_pids {
        Some(v) => v,
        None => {
            proof {
                if has {
                    assert(false);
                }
            }
            return None;
        },
    };
    proof {
        if has {
            assert(product_ids@ == m0.product_ids);
            assert(enc_at(buf@, p5 as int, enc_u64(m0.created_at)));
            lemma_enc_u64(m0.created_at);
        }
    }
    let r_created = read_u64(buf, p5);
    let (created_at, p6) = match r_created {
        Some(v) => v,
        None => {
            proof {
                if has {
                    assert(false);
                }
            }
            return None;
        },
    };
    proof {
        if has {
            lemma_enc_u64_det(buf@, p5 as int, created_at, m0.created_at);
            assert(enc_at(buf@, p6 as int, enc_opt_u64(m0.updated_at)));
        }
    }
    let r_updated = read_opt_u64(buf, p6);
    let (updated_at, p7) = match r_updated {
        Some(v) => v,
        None => {
            proof {
                if has {
                    assert(false);
                }
            }
            return None;
        },
    };
    proof {
        if has {
            assert(updated_at == m0.updated_at);
            assert(p7 == buf@.len());
        }
    }
    if p7 != buf.len() {
        proof {
            if has {
                assert(false);
            }
        }
        return None;
    }
    let f = Farmer { id, name, email, phone, product_ids, created_at, updated_at };
    proof {
        lemma_enc_u64(id);
        lemma_enc_u64(created_at);
        lemma_enc_at_join(buf@, p5 as int, enc_u64(created_at), enc_opt_u64(updated_at));
        lemma_enc_at_join(
            buf@,
            p4 as int,
            enc_u64_list(product_ids@),
            enc_u64(created_at) + enc_opt_u64(updated_at),
        );
        lemma_enc_at_join(
            buf@,
            p3 as int,
            enc_str(phone@),
            enc_u64_list(product_ids@) + (enc_u64(created_at) + enc_opt_u64(updated_at)),
        );
        lemma_enc_at_join(
            buf@,
            p2 as int,
            enc_str(email@),
            enc_str(phone@) + (enc_u64_list(product_ids@) + (enc_u64(created_at) + enc_opt_u64(
                updated_at,
            ))),
        );
        lemma_enc_at_join(
            buf@,
            p1 as int,
            enc_str(name@),
            enc_str(email@) + (enc_str(phone@) + (enc_u64_list(product_ids@) + (enc_u64(created_at)
                + enc_opt_u64(updated_at)))),
        );
        lemma_enc_at_join(
            buf@,
            0,
            enc_u64(id),
            enc_str(name@) + (enc_str(email@) + (enc_str(phone@) + (enc_u64_list(product_ids@) + (
            enc_u64(created_at) + enc_opt_u64(updated_at))))),
        );
        assert(buf@ =~= enc_farmer(f@));
        assert forall|m: FarmerModel| buf@ == enc_farmer(m) implies f@ == m by {
            lemma_enc_farmer_inj(buf@, m, m0);
        }
    }
    Some(f)
}


/// The caller-supplied fields of a product.
#[derive(Debug, Clone)]
pub struct ProductPayload {
    pub name: String,
    pub description: String,
    pub farmer_id: u64,
}

/// The caller-supplied fields of a wholesaler.
#[derive(Debug, Clone)]
pub struct WholesalerPayload {
    pub name: String,
    pub email: String,
    pub phone: String,
}

/// The caller-supplied fields of a supply order.
#[derive(Debug, Clone)]
pub struct SupplyOrderPayload {
    pub title: String,
    pub farmer_id: u64,
    pub wholesaler_id: u64,
    pub products: Vec<(String, u64)>,
    pub product_types: Vec<String>,
    pub is_complete: bool,
}

/// The arguments of attaching a wholesaler to a supply order.
#[derive(Debug, Clone)]
pub struct AddSupplyOrderWholesalerPayload {
    pub order_id: u64,
    pub wholesaler_id: u64,
}

/// A product: an item offered by a farmer.
#[derive(Debug, Clone)]
pub struct Product {
    pub id: u64,
    pub name: String,
    pub description: String,
    pub farmer_id: u64,
    pub created_at: u64,
    pub updated_at: Option<u64>,
}

/// The mathematical value of a `Product`.
pub struct ProductModel {
    pub id: u64,
    pub name: Seq<char>,
    pub description: Seq<char>,
    pub farmer_id: u64,
    pub created_at: u64,
    pub updated_at: Option<u64>,
}

impl View for Product {
    type V = ProductModel;

    open spec fn view(&self) -> ProductModel {
        ProductModel {
            id: self.id,
            name: self.name@,
            description: self.description@,
            farmer_id: self.farmer_id,
            created_at: self.created_at,
            updated_at: self.updated_at,
        }
    }
}

/// A product as bytes: each field in declaration order.
pub open spec fn enc_product(m: ProductModel) -> Seq<u8> {
    enc_u64(m.id) + (enc_str(m.name) + (enc_str(m.description) + (enc_u64(m.farmer_id) + (enc_u64(m.created_at) + (enc_opt_u64(m.updated_at))))))
}

/// Where each field of an encoded product stands in a buffer.
pub proof fn lemma_enc_product_fields(b: Seq<u8>, pos: int, m: ProductModel)
    requires
        enc_at(b, pos, enc_product(m)),
    ensures
        enc_at(b, pos, enc_u64(m.id)),
        enc_at(b, pos + 8, enc_str(m.name)),
        enc_at(b, pos + 8 + enc_str(m.name).len(), enc_str(m.description)),
        enc_at(b, pos + 8 + enc_str(m.name).len() + enc_str(m.description).len(), enc_u64(m.farmer_id)),
        enc_at(b, pos + 16 + enc_str(m.name).len() + enc_str(m.description).len(), enc_u64(m.created_at)),
        enc_at(b, pos + 24 + enc_str(m.name).len() + enc_str(m.description).len(), enc_opt_u64(m.updated_at)),
        enc_product(m).len() == 24 + enc_str(m.name).len() + enc_str(m.description).len() + enc_opt_u64(m.updated_at).len(),
{
    lemma_enc_u64(m.id);
    lemma_enc_u64(m.farmer_id);
    lemma_enc_u64(m.created_at);
    lemma_enc_at_split(b, pos, enc_u64(m.id), enc_str(m.name) + (enc_str(m.description) + (enc_u64(m.farmer_id) + (enc_u64(m.created_at) + (enc_opt_u64(m.updated_at))))));
    lemma_enc_at_split(b, pos + 8, enc_str(m.name), enc_str(m.description) + (enc_u64(m.farmer_id) + (enc_u64(m.created_at) + (enc_opt_u64(m.updated_at)))));
    lemma_enc_at_split(b, pos + 8 + enc_str(m.name).len(), enc_str(m.description), enc_u64(m.farmer_id) + (enc_u64(m.created_at) + (enc_opt_u64(m.updated_at))));
    lemma_enc_at_split(b, pos + 8 + enc_str(m.name).len() + enc_str(m.description).len(), enc_u64(m.farmer_id), enc_u64(m.created_at) + (enc_opt_u64(m.updated_at)));
    lemma_enc_at_split(b, pos + 16 + enc_str(m.name).len() + enc_str(m.description).len(), enc_u64(m.created_at), enc_opt_u64(m.updated_at));
}

/// Two models with the same encoding are the same model.
pub proof fn lemma_enc_product_inj(b: Seq<u8>, m1: ProductModel, m2: ProductModel)
    requires
        b.len() < 0x1_0000_0000_0000_0000,
        b == enc_product(m1),
        b == enc_product(m2),
    ensures
        m1 == m2,
{
    assert(enc_at(b, 0, enc_product(m1)) && enc_at(b, 0, enc_product(m2))) by {
        assert(b.subrange(0, b.len() as int) =~= b);
    }
    lemma_enc_product_fields(b, 0, m1);
    lemma_enc_product_fields(b, 0, m2);
    lemma_enc_u64_det(b, 0, m1.id, m2.id);
    lemma_enc_str_det(b, 8, m1.name, m2.name);
    lemma_enc_str_det(b, 8int + enc_str(m1.name).len(), m1.description, m2.description);
    lemma_enc_u64_det(b, 8int + enc_str(m1.name).len() + enc_str(m1.description).len(), m1.farmer_id, m2.farmer_id);
    lemma_enc_u64_det(b, 16int + enc_str(m1.name).len() + enc_str(m1.description).len(), m1.created_at, m2.created_at);
    lemma_enc_opt_u64_det(b, 24int + enc_str(m1.name).len() + enc_str(m1.description).len(), m1.updated_at, m2.updated_at);
}

pub fn encode_product(f: &Product) -> (out: Vec<u8>)
    ensures
        out@ == enc_product(f@),
{
    let mut out: Vec<u8> = Vec::new();
    write_u64(&mut out, f.id);
    write_str(&mut out, f.name.as_str());
    write_str(&mut out, f.description.as_str());
    write_u64(&mut out, f.farmer_id);
    write_u64(&mut out, f.created_at);
    write_opt_u64(&mut out, &f.updated_at);
    proof {
        assert(out@ =~= enc_product(f@));
    }
    out
}

#[verifier::rlimit(50)]
pub fn decode_product(buf: &Vec<u8>) -> (r: Option<Product>)
    ensures
        r matches Some(f) ==> buf@ == enc_product(f@),
        forall|m: ProductModel| buf@ == enc_product(m) ==> (r matches Some(f) && f@ == m),
{
    let ghost has = exists|m: ProductModel| buf@ == enc_product(m);
    let ghost m0 = choose|m: ProductModel| buf@ == enc_product(m);
    proof {
        if has {
            assert(enc_at(buf@, 0, enc_product(m0))) by {
                assert(buf@.subrange(0, buf@.len() as int) =~= buf@);
            }
            lemma_enc_product_fields(buf@, 0, m0);
            lemma_enc_u64(m0.id);
        }
    }
    let r_id = read_u64(buf, 0);
    let (id, p1) = match r_id {
        Some(v) => v,
        None => {
            proof {
                if has {
                    lemma_enc_u64(m0.id);
                    assert(false);
                }
            }
            return None;
        },
    };
    proof {
        if has {
            lemma_enc_u64_det(buf@, 0 as int, id, m0.id);
            assert(enc_at(buf@, p1 as int, enc_str(m0.name)));
        }
    }
    let r_name = read_str(buf, p1);
    let (name, p2) = match r_name {
        Some(v) => v,
        None => {
            proof {
                if has {
                    assert(false);
                }
            }
            return None;
        },
    };
    proof {
        if has {
            assert(name@ == m0.name);
            assert(enc_at(buf@, p2 as int, enc_str(m0.description)));
        }
    }
    let r_description = read_str(buf, p2);
    let (description, p3) = match r_description {
        Some(v) => v,
        None => {
            proof {
                if has {
                    assert(false);
                }
            }
            return None;
        },
    };
    proof {
        if has {
            assert(description@ == m0.description);
            lemma_enc_u64(m0.farmer_id);
            assert(enc_at(buf@, p3 as int, enc_u64(m0.farmer_id)));
        }
    }
    let r_farmer_id = read_u64(buf, p3);
    let (farmer_id, p4) = match r_farmer_id {
        Some(v) => v,
        None => {
            proof {
                if has {
                    lemma_enc_u64(m0.farmer_id);
                    assert(false);
                }
            }
            return None;
        },
    };
    proof {
        if has {
            lemma_enc_u64_det(buf@, p3 as int, farmer_id, m0.farmer_id);
            lemma_enc_u64(m0.created_at);
            assert(enc_at(buf@, p4 as int, enc_u64(m0.created_at)));
        }
    }
    let r_created_at = read_u64(buf, p4);
    let (created_at, p5) = match r_created_at {
        Some(v) => v,
        None => {
            proof {
                if has {
                    lemma_enc_u64(m0.created_at);
                    assert(false);
                }
            }
            return None;
        },
    };
    proof {
        if has {
            lemma_enc_u64_det(buf@, p4 as int, created_at, m0.created_at);
            assert(enc_at(buf@, p5 as int, enc_opt_u64(m0.updated_at)));
        }
    }
    let r_updated_at = read_opt_u64(buf, p5);
    let (updated_at, p6) = match r_updated_at {
        Some(v) => v,
        None => {
            proof {
                if has {
                    assert(false);
                }
            }
            return None;
        },
    };
    proof {
        if has {
            assert(updated_at == m0.updated_at);
            assert(p6 == buf@.len());
        }
    }
    if p6 != buf.len() {
        proof {
            if has {
                assert(false);
            }
        }
        return None;
    }
    let f = Product { id, name, description, farmer_id, created_at, updated_at };
    proof {
        lemma_enc_u64(id);
        lemma_enc_u64(farmer_id);
        lemma_enc_u64(created_at);
        lemma_enc_at_join(
            buf@,
            p4 as int,
            enc_u64(created_at),
            enc_opt_u64(updated_at),
        );
        lemma_enc_at_join(
            buf@,
            p3 as int,
            enc_u64(farmer_id),
            enc_u64(created_at) + (enc_opt_u64(updated_at)),
        );
        lemma_enc_at_join(
            buf@,
            p2 as int,
            enc_str(description@),
            enc_u64(farmer_id) + (enc_u64(created_at) + (enc_opt_u64(updated_at))),
        );
        lemma_enc_at_join(
            buf@,
            p1 as int,
            enc_str(name@),
            enc_str(description@) + (enc_u64(farmer_id) + (enc_u64(created_at) + (enc_opt_u64(updated_at)))),
        );
        lemma_enc_at_join(
            buf@,
            0,
            enc_u64(id),
            enc_str(name@) + (enc_str(description@) + (enc_u64(farmer_id) + (enc_u64(created_at) + (enc_opt_u64(updated_at))))),
        );
        assert(buf@ =~= enc_product(f@));
        assert forall|m: ProductModel| buf@ == enc_product(m) implies f@ == m by {
            lemma_enc_product_inj(buf@, m, m0);
        }
    }
    Some(f)
}

/// A wholesaler: a registered buyer with contact fields and the ids of the
/// supply orders attributed to them.
#[derive(Debug, Clone)]
pub struct Wholesaler {
    pub id: u64,
    pub name: String,
    pub email: String,
    pub phone: String,
    pub order_ids: Vec<u64>,
    pub created_at: u64,
    pub updated_at: Option<u64>,
}

/// The mathematical value of a `Wholesaler`.
pub struct WholesalerModel {
    pub id: u64,
    pub name: Seq<char>,
    pub email: Seq<char>,
    pub phone: Seq<char>,
    pub order_ids: Seq<u64>,
    pub created_at: u64,
    pub updated_at: Option<u64>,
}

impl View for Wholesaler {
    type V = WholesalerModel;

    open spec fn view(&self) -> WholesalerModel {
        WholesalerModel {
            id: self.id,
            name: self.name@,
            email: self.email@,
            phone: self.phone@,
            order_ids: self.order_ids@,
            created_at: self.created_at,
            updated_at: self.updated_at,
        }
    }
}

/// A wholesaler as bytes: each field in declaration order.
pub open spec fn enc_wholesaler(m: WholesalerModel) -> Seq<u8> {
    enc_u64(m.id) + (enc_str(m.name) + (enc_str(m.email) + (enc_str(m.phone) + (enc_u64_list(m.order_ids) + (enc_u64(m.created_at) + (enc_opt_u64(m.updated_at)))))))
}

/// Where each field of an encoded wholesaler stands in a buffer.
pub proof fn lemma_enc_wholesaler_fields(b: Seq<u8>, pos: int, m: WholesalerModel)
    requires
        enc_at(b, pos, enc_wholesaler(m)),
    ensures
        enc_at(b, pos, enc_u64(m.id)),
        enc_at(b, pos + 8, enc_str(m.name)),
        enc_at(b, pos + 8 + enc_str(m.name).len(), enc_str(m.email)),
        enc_at(b, pos + 8 + enc_str(m.name).len() + enc_str(m.email).len(), enc_str(m.phone)),
        enc_at(b, pos + 8 + enc_str(m.name).len() + enc_str(m.email).len() + enc_str(m.phone).len(), enc_u64_list(m.order_ids)),
        enc_at(b, pos + 8 + enc_str(m.name).len() + enc_str(m.email).len() + enc_str(m.phone).len() + enc_u64_list(m.order_ids).len(), enc_u64(m.created_at)),
        enc_at(b, pos + 16 + enc_str(m.name).len() + enc_str(m.email).len() + enc_str(m.phone).len() + enc_u64_list(m.order_ids).len(), enc_opt_u64(m.updated_at)),
        enc_wholesaler(m).len() == 16 + enc_str(m.name).len() + enc_str(m.email).len() + enc_str(m.phone).len() + enc_u64_list(m.order_ids).len() + enc_opt_u64(m.updated_at).len(),
{
    lemma_enc_u64(m.id);
    lemma_enc_u64(m.created_at);
    lemma_enc_at_split(b, pos, enc_u64(m.id), enc_str(m.name) + (enc_str(m.email) + (enc_str(m.phone) + (enc_u64_list(m.order_ids) + (enc_u64(m.created_at) + (enc_opt_u64(m.updated_at)))))));
    lemma_enc_at_split(b, pos + 8, enc_str(m.name), enc_str(m.email) + (enc_str(m.phone) + (enc_u64_list(m.order_ids) + (enc_u64(m.created_at) + (enc_opt_u64(m.updated_at))))));
    lemma_enc_at_split(b, pos + 8 + enc_str(m.name).len(), enc_str(m.email), enc_str(m.phone) + (enc_u64_list(m.order_ids) + (enc_u64(m.created_at) + (enc_opt_u64(m.updated_at)))));
    lemma_enc_at_split(b, pos + 8 + enc_str(m.name).len() + enc_str(m.email).len(), enc_str(m.phone), enc_u64_list(m.order_ids) + (enc_u64(m.created_at) + (enc_opt_u64(m.updated_at))));
    lemma_enc_at_split(b, pos + 8 + enc_str(m.name).len() + enc_str(m.email).len() + enc_str(m.phone).len(), enc_u64_list(m.order_ids), enc_u64(m.created_at) + (enc_opt_u64(m.updated_at)));
    lemma_enc_at_split(b, pos + 8 + enc_str(m.name).len() + enc_str(m.email).len() + enc_str(m.phone).len() + enc_u64_list(m.order_ids).len(), enc_u64(m.created_at), enc_opt_u64(m.updated_at));
}

/// Two models with the same encoding are the same model.
pub proof fn lemma_enc_wholesaler_inj(b: Seq<u8>, m1: WholesalerModel, m2: WholesalerModel)
    requires
        b.len() < 0x1_0000_0000_0000_0000,
        b == enc_wholesaler(m1),
        b == enc_wholesaler(m2),
    ensures
        m1 == m2,
{
    assert(enc_at(b, 0, enc_wholesaler(m1)) && enc_at(b, 0, enc_wholesaler(m2))) by {
        assert(b.subrange(0, b.len() as int) =~= b);
    }
    lemma_enc_wholesaler_fields(b, 0, m1);
    lemma_enc_wholesaler_fields(b, 0, m2);
    lemma_enc_u64_det(b, 0, m1.id, m2.id);
    lemma_enc_str_det(b, 8, m1.name, m2.name);
    lemma_enc_str_det(b, 8int + enc_str(m1.name).len(), m1.email, m2.email);
    lemma_enc_str_det(b, 8int + enc_str(m1.name).len() + enc_str(m1.email).len(), m1.phone, m2.phone);
    lemma_enc_u64_list_det(b, 8int + enc_str(m1.name).len() + enc_str(m1.email).len() + enc_str(m1.phone).len(), m1.order_ids, m2.order_ids);
    lemma_enc_u64_det(b, 8int + enc_str(m1.name).len() + enc_str(m1.email).len() + enc_str(m1.phone).len() + enc_u64_list(m1.order_ids).len(), m1.created_at, m2.created_at);
    lemma_enc_opt_u64_det(b, 16int + enc_str(m1.name).len() + enc_str(m1.email).len() + enc_str(m1.phone).len() + enc_u64_list(m1.order_ids).len(), m1.updated_at, m2.updated_at);
}

pub fn encode_wholesaler(f: &Wholesaler) -> (out: Vec<u8>)
    ensures
        out@ == enc_wholesaler(f@),
{
    let mut out: Vec<u8> = Vec::new();
    write_u64(&mut out, f.id);
    write_str(&mut out, f.name.as_str());
    write_str(&mut out, f.email.as_str());
    write_str(&mut out, f.phone.as_str());
    write_u64_list(&mut out, &f.order_ids);
    write_u64(&mut out, f.created_at);
    write_opt_u64(&mut out, &f.updated_at);
    proof {
        assert(out@ =~= enc_wholesaler(f@));
    }
    out
}

#[verifier::rlimit(50)]
pub fn decode_wholesaler(buf: &Vec<u8>) -> (r: Option<Wholesaler>)
    ensures
        r matches Some(f) ==> buf@ == enc_wholesaler(f@),
        forall|m: WholesalerModel| buf@ == enc_wholesaler(m) ==> (r matches Some(f) && f@ == m),
{
    let ghost has = exists|m: WholesalerModel| buf@ == enc_wholesaler(m);
    let ghost m0 = choose|m: WholesalerModel| buf@ == enc_wholesaler(m);
    proof {
        if has {
            assert(enc_at(buf@, 0, enc_wholesaler(m0))) by {
                assert(buf@.subrange(0, buf@.len() as int) =~= buf@);
            }
            lemma_enc_wholesaler_fields(buf@, 0, m0);
            lemma_enc_u64(m0.id);
        }
    }
    let r_id = read_u64(buf, 0);
    let (id, p1) = match r_id {
        Some(v) => v,
        None => {
            proof {
                if has {
                    lemma_enc_u64(m0.id);
                    assert(false);
                }
            }
            return None;
        },
    };
    proof {
        if has {
            lemma_enc_u64_det(buf@, 0 as int, id, m0.id);
            assert(enc_at(buf@, p1 as int, enc_str(m0.name)));
        }
    }
    let r_name = read_str(buf, p1);
    let (name, p2) = match r_name {
        Some(v) => v,
        None => {
            proof {
                if has {
                    assert(false);
                }
            }
            return None;
        },
    };
    proof {
        if has {
            assert(name@ == m0.name);
            assert(enc_at(buf@, p2 as int, enc_str(m0.email)));
        }
    }
    let r_email = read_str(buf, p2);
    let (email, p3) = match r_email {
        Some(v) => v,
        None => {
            proof {
                if has {
                    assert(false);
                }
            }
            return None;
        },
    };
    proof {
        if has {
            assert(email@ == m0.email);
            assert(enc_at(buf@, p3 as int, enc_str(m0.phone)));
        }
    }
    let r_phone = read_str(buf, p3);
    let (phone, p4) = match r_phone {
        Some(v) => v,
        None => {
            proof {
                if has {
                    assert(false);
                }
            }
            return None;
        },
    };
    proof {
        if has {
            assert(phone@ == m0.phone);
            assert(enc_at(buf@, p4 as int, enc_u64_list(m0.order_ids)));
        }
    }
    let r_order_ids = read_u64_list(buf, p4);
    let (order_ids, p5) = match r_order_ids {
        Some(v) => v,
        None => {
            proof {
                if has {
                    assert(false);
                }
            }
            return None;
        },
    };
    proof {
        if has {
            assert(order_ids@ == m0.order_ids);
            lemma_enc_u64(m0.created_at);
            assert(enc_at(buf@, p5 as int, enc_u64(m0.created_at)));
        }
    }
    let r_created_at = read_u64(buf, p5);
    let (created_at, p6) = match r_created_at {
        Some(v) => v,
        None => {
            proof {
                if has {
                    lemma_enc_u64(m0.created_at);
                    assert(false);
                }
            }
            return None;
        },
    };
    proof {
        if has {
            lemma_enc_u64_det(buf@, p5 as int, created_at, m0.created_at);
            assert(enc_at(buf@, p6 as int, enc_opt_u64(m0.updated_at)));
        }
    }
    let r_updated_at = read_opt_u64(buf, p6);
    let (updated_at, p7) = match r_updated_at {
        Some(v) => v,
        None => {
            proof {
                if has {
                    assert(false);
                }
            }
            return None;
        },
    };
    proof {
        if has {
            assert(updated_at == m0.updated_at);
            assert(p7 == buf@.len());
        }
    }
    if p7 != buf.len() {
        proof {
            if has {
                assert(false);
            }
        }
        return None;
    }
    let f = Wholesaler { id, name, email, phone, order_ids, created_at, updated_at };
    proof {
        lemma_enc_u64(id);
        lemma_enc_u64(created_at);
        lemma_enc_at_join(
            buf@,
            p5 as int,
            enc_u64(created_at),
            enc_opt_u64(updated_at),
        );
        lemma_enc_at_join(
            buf@,
            p4 as int,
            enc_u64_list(order_ids@),
            enc_u64(created_at) + (enc_opt_u64(updated_at)),
        );
        lemma_enc_at_join(
            buf@,
            p3 as int,
            enc_str(phone@),
            enc_u64_list(order_ids@) + (enc_u64(created_at) + (enc_opt_u64(updated_at))),
        );
        lemma_enc_at_join(
            buf@,
            p2 as int,
            enc_str(email@),
            enc_str(phone@) + (enc_u64_list(order_ids@) + (enc_u64(created_at) + (enc_opt_u64(updated_at)))),
        );
        lemma_enc_at_join(
            buf@,
            p1 as int,
            enc_str(name@),
            enc_str(email@) + (enc_str(phone@) + (enc_u64_list(order_ids@) + (enc_u64(created_at) + (enc_opt_u64(updated_at))))),
        );
        lemma_enc_at_join(
            buf@,
            0,
            enc_u64(id),
            enc_str(name@) + (enc_str(email@) + (enc_str(phone@) + (enc_u64_list(order_ids@) + (enc_u64(created_at) + (enc_opt_u64(updated_at)))))),
        );
        assert(buf@ =~= enc_wholesaler(f@));
        assert forall|m: WholesalerModel| buf@ == enc_wholesaler(m) implies f@ == m by {
            lemma_enc_wholesaler_inj(buf@, m, m0);
        }
    }
    Some(f)
}

/// A supply order: a request for produce, optionally claimed by a
/// wholesaler, with the product kinds and per-product quantities asked for.
#[derive(Debug, Clone)]
pub struct SupplyOrder {
    pub id: u64,
    pub title: String,
    pub farmer_id: u64,
    pub wholesaler_id: Option<u64>,
    pub product_types: Vec<String>,
    pub products: Vec<(String, u64)>,
    pub is_complete: bool,
    pub created_at: u64,
    pub updated_at: Option<u64>,
}

/// The mathematical value of a `SupplyOrder`.
pub struct SupplyOrderModel {
    pub id: u64,
    pub title: Seq<char>,
    pub farmer_id: u64,
    pub wholesaler_id: Option<u64>,
    pub product_types: Seq<Seq<char>>,
    pub products: Seq<(Seq<char>, u64)>,
    pub is_complete: bool,
    pub created_at: u64,
    pub updated_at: Option<u64>,
}

impl View for SupplyOrder {
    type V = SupplyOrderModel;

    open spec fn view(&self) -> SupplyOrderModel {
        SupplyOrderModel {
            id: self.id,
            title: self.title@,
            farmer_id: self.farmer_id,
            wholesaler_id: self.wholesaler_id,
            product_types: str_views(self.product_types@),
            products: pair_views(self.products@),
            is_complete: self.is_complete,
            created_at: self.created_at,
            updated_at: self.updated_at,
        }
    }
}

/// A supply_order as bytes: each field in declaration order.
pub open spec fn enc_supply_order(m: SupplyOrderModel) -> Seq<u8> {
    enc_u64(m.id) + (enc_str(m.title) + (enc_u64(m.farmer_id) + (enc_opt_u64(m.wholesaler_id) + (enc_str_list(m.product_types) + (enc_pair_list(m.products) + (enc_bool(m.is_complete) + (enc_u64(m.created_at) + (enc_opt_u64(m.updated_at)))))))))
}

/// Where each field of an encoded supply_order stands in a buffer.
pub proof fn lemma_enc_supply_order_fields(b: Seq<u8>, pos: int, m: SupplyOrderModel)
    requires
        enc_at(b, pos, enc_supply_order(m)),
    ensures
        enc_at(b, pos, enc_u64(m.id)),
        enc_at(b, pos + 8, enc_str(m.title)),
        enc_at(b, pos + 8 + enc_str(m.title).len(), enc_u64(m.farmer_id)),
        enc_at(b, pos + 16 + enc_str(m.title).len(), enc_opt_u64(m.wholesaler_id)),
        enc_at(b, pos + 16 + enc_str(m.title).len() + enc_opt_u64(m.wholesaler_id).len(), enc_str_list(m.product_types)),
        enc_at(b, pos + 16 + enc_str(m.title).len() + enc_opt_u64(m.wholesaler_id).len() + enc_str_list(m.product_types).len(), enc_pair_list(m.products)),
        enc_at(b, pos + 16 + enc_str(m.title).len() + enc_opt_u64(m.wholesaler_id).len() + enc_str_list(m.product_types).len() + enc_pair_list(m.products).len(), enc_bool(m.is_complete)),
        enc_at(b, pos + 17 + enc_str(m.title).len() + enc_opt_u64(m.wholesaler_id).len() + enc_str_list(m.product_types).len() + enc_pair_list(m.products).len(), enc_u64(m.created_at)),
        enc_at(b, pos + 25 + enc_str(m.title).len() + enc_opt_u64(m.wholesaler_id).len() + enc_str_list(m.product_types).len() + enc_pair_list(m.products).len(), enc_opt_u64(m.updated_at)),
        enc_supply_order(m).len() == 25 + enc_str(m.title).len() + enc_opt_u64(m.wholesaler_id).len() + enc_str_list(m.product_types).len() + enc_pair_list(m.products).len() + enc_opt_u64(m.updated_at).len(),
{
    lemma_enc_u64(m.id);
    lemma_enc_u64(m.farmer_id);
    lemma_enc_u64(m.created_at);
    lemma_enc_at_split(b, pos, enc_u64(m.id), enc_str(m.title) + (enc_u64(m.farmer_id) + (enc_opt_u64(m.wholesaler_id) + (enc_str_list(m.product_types) + (enc_pair_list(m.products) + (enc_bool(m.is_complete) + (enc_u64(m.created_at) + (enc_opt_u64(m.updated_at)))))))));
    lemma_enc_at_split(b, pos + 8, enc_str(m.title), enc_u64(m.farmer_id) + (enc_opt_u64(m.wholesaler_id) + (enc_str_list(m.product_types) + (enc_pair_list(m.products) + (enc_bool(m.is_complete) + (enc_u64(m.created_at) + (enc_opt_u64(m.updated_at))))))));
    lemma_enc_at_split(b, pos + 8 + enc_str(m.title).len(), enc_u64(m.farmer_id), enc_opt_u64(m.wholesaler_id) + (enc_str_list(m.product_types) + (enc_pair_list(m.products) + (enc_bool(m.is_complete) + (enc_u64(m.created_at) + (enc_opt_u64(m.updated_at)))))));
    lemma_enc_at_split(b, pos + 16 + enc_str(m.title).len(), enc_opt_u64(m.wholesaler_id), enc_str_list(m.product_types) + (enc_pair_list(m.products) + (enc_bool(m.is_complete) + (enc_u64(m.created_at) + (enc_opt_u64(m.updated_at))))));
    lemma_enc_at_split(b, pos + 16 + enc_str(m.title).len() + enc_opt_u64(m.wholesaler_id).len(), enc_str_list(m.product_types), enc_pair_list(m.products) + (enc_bool(m.is_complete) + (enc_u64(m.created_at) + (enc_opt_u64(m.updated_at)))));
    lemma_enc_at_split(b, pos + 16 + enc_str(m.title).len() + enc_opt_u64(m.wholesaler_id).len() + enc_str_list(m.product_types).len(), enc_pair_list(m.products), enc_bool(m.is_complete) + (enc_u64(m.created_at) + (enc_opt_u64(m.updated_at))));
    lemma_enc_at_split(b, pos + 16 + enc_str(m.title).len() + enc_opt_u64(m.wholesaler_id).len() + enc_str_list(m.product_types).len() + enc_pair_list(m.products).len(), enc_bool(m.is_complete), enc_u64(m.created_at) + (enc_opt_u64(m.updated_at)));
    lemma_enc_at_split(b, pos + 17 + enc_str(m.title).len() + enc_opt_u64(m.wholesaler_id).len() + enc_str_list(m.product_types).len() + enc_pair_list(m.products).len(), enc_u64(m.created_at), enc_opt_u64(m.updated_at));
}

/// Two models with the same encoding are the same model.
pub proof fn lemma_enc_supply_order_inj(b: Seq<u8>, m1: SupplyOrderModel, m2: SupplyOrderModel)
    requires
        b.len() < 0x1_0000_0000_0000_0000,
        b == enc_supply_order(m1),
        b == enc_supply_order(m2),
    ensures
        m1 == m2,
{
    assert(enc_at(b, 0, enc_supply_order(m1)) && enc_at(b, 0, enc_supply_order(m2))) by {
        assert(b.subrange(0, b.len() as int) =~= b);
    }
    lemma_enc_supply_order_fields(b, 0, m1);
    lemma_enc_supply_order_fields(b, 0, m2);
    lemma_enc_u64_det(b, 0, m1.id, m2.id);
    lemma_enc_str_det(b, 8, m1.title, m2.title);
    lemma_enc_u64_det(b, 8int + enc_str(m1.title).len(), m1.farmer_id, m2.farmer_id);
    lemma_enc_opt_u64_det(b, 16int + enc_str(m1.title).len(), m1.wholesaler_id, m2.wholesaler_id);
    lemma_enc_str_list_det(b, 16int + enc_str(m1.title).len() + enc_opt_u64(m1.wholesaler_id).len(), m1.product_types, m2.product_types);
    lemma_enc_pair_list_det(b, 16int + enc_str(m1.title).len() + enc_opt_u64(m1.wholesaler_id).len() + enc_str_list(m1.product_types).len(), m1.products, m2.products);
    lemma_enc_bool_det(b, 16int + enc_str(m1.title).len() + enc_opt_u64(m1.wholesaler_id).len() + enc_str_list(m1.product_types).len() + enc_pair_list(m1.products).len(), m1.is_complete, m2.is_complete);
    lemma_enc_u64_det(b, 17int + enc_str(m1.title).len() + enc_opt_u64(m1.wholesaler_id).len() + enc_str_list(m1.product_types).len() + enc_pair_list(m1.products).len(), m1.created_at, m2.created_at);
    lemma_enc_opt_u64_det(b, 25int + enc_str(m1.title).len() + enc_opt_u64(m1.wholesaler_id).len() + enc_str_list(m1.product_types).len() + enc_pair_list(m1.products).len(), m1.updated_at, m2.updated_at);
}

pub fn encode_supply_order(f: &SupplyOrder) -> (out: Vec<u8>)
    ensures
        out@ == enc_supply_order(f@),
{
    let mut out: Vec<u8> = Vec::new();
    write_u64(&mut out, f.id);
    write_str(&mut out, f.title.as_str());
    write_u64(&mut out, f.farmer_id);
    write_opt_u64(&mut out, &f.wholesaler_id);
    write_str_list(&mut out, &f.product_types);
    write_pair_list(&mut out, &f.products);
    write_bool(&mut out, f.is_complete);
    write_u64(&mut out, f.created_at);
    write_opt_u64(&mut out, &f.updated_at);
    proof {
        assert(out@ =~= enc_supply_order(f@));
    }
    out
}

#[verifier::rlimit(100)]
pub fn decode_supply_order(buf: &Vec<u8>) -> (r: Option<SupplyOrder>)
    ensures
        r matches Some(f) ==> buf@ == enc_supply_order(f@),
        forall|m: SupplyOrderModel| buf@ == enc_supply_order(m) ==> (r matches Some(f) && f@ == m),
{
    let ghost has = exists|m: SupplyOrderModel| buf@ == enc_supply_order(m);
    let ghost m0 = choose|m: SupplyOrderModel| buf@ == enc_supply_order(m);
    proof {
        if has {
            assert(enc_at(buf@, 0, enc_supply_order(m0))) by {
                assert(buf@.subrange(0, buf@.len() as int) =~= buf@);
            }
            lemma_enc_supply_order_fields(buf@, 0, m0);
            lemma_enc_u64(m0.id);
        }
    }
    let r_id = read_u64(buf, 0);
    let (id, p1) = match r_id {
        Some(v) => v,
        None => {
            proof {
                if has {
                    lemma_enc_u64(m0.id);
                    assert(false);
                }
            }
            return None;
        },
    };
    proof {
        if has {
            lemma_enc_u64_det(buf@, 0 as int, id, m0.id);
            assert(enc_at(buf@, p1 as int, enc_str(m0.title)));
        }
    }
    let r_title = read_str(buf, p1);
    let (title, p2) = match r_title {
        Some(v) => v,
        None => {
            proof {
                if has {
                    assert(false);
                }
            }
            return None;
        },
    };
    proof {
        if has {
            assert(title@ == m0.title);
            lemma_enc_u64(m0.farmer_id);
            assert(enc_at(buf@, p2 as int, enc_u64(m0.farmer_id)));
        }
    }
    let r_farmer_id = read_u64(buf, p2);
    let (farmer_id, p3) = match r_farmer_id {
        Some(v) => v,
        None => {
            proof {
                if has {
                    lemma_enc_u64(m0.farmer_id);
                    assert(false);
                }
            }
            return None;
        },
    };
    proof {
        if has {
            lemma_enc_u64_det(buf@, p2 as int, farmer_id, m0.farmer_id);
            assert(enc_at(buf@, p3 as int, enc_opt_u64(m0.wholesaler_id)));
        }
    }
    let r_wholesaler_id = read_opt_u64(buf, p3);
    let (wholesaler_id, p4) = match r_wholesaler_id {
        Some(v) => v,
        None => {
            proof {
                if has {
                    assert(false);
                }
            }
            return None;
        },
    };
    proof {
        if has {
            assert(wholesaler_id == m0.wholesaler_id);
            assert(enc_at(buf@, p4 as int, enc_str_list(m0.product_types)));
        }
    }
    let r_product_types = read_str_list(buf, p4);
    let (product_types, p5) = match r_product_types {
        Some(v) => v,
        None => {
            proof {
                if has {
                    assert(false);
                }
            }
            return None;
        },
    };
    proof {
        if has {
            assert(str_views(product_types@) == m0.product_types);
            assert(enc_at(buf@, p5 as int, enc_pair_list(m0.products)));
        }
    }
    let r_products = read_pair_list(buf, p5);
    let (products, p6) = match r_products {
        Some(v) => v,
        None => {
            proof {
                if has {
                    assert(false);
                }
            }
            return None;
        },
    };
    proof {
        if has {
            assert(pair_views(products@) == m0.products);
            assert(enc_at(buf@, p6 as int, enc_bool(m0.is_complete)));
        }
    }
    let r_is_complete = read_bool(buf, p6);
    let (is_complete, p7) = match r_is_complete {
        Some(v) => v,
        None => {
            proof {
                if has {
                    assert(false);
                }
            }
            return None;
        },
    };
    proof {
        if has {
            lemma_enc_bool_det(buf@, p6 as int, is_complete, m0.is_complete);
            lemma_enc_u64(m0.created_at);
            assert(enc_at(buf@, p7 as int, enc_u64(m0.created_at)));
        }
    }
    let r_created_at = read_u64(buf, p7);
    let (created_at, p8) = match r_created_at {
        Some(v) => v,
        None => {
            proof {
                if has {
                    lemma_enc_u64(m0.created_at);
                    assert(false);
                }
            }
            return None;
        },
    };
    proof {
        if has {
            lemma_enc_u64_det(buf@, p7 as int, created_at, m0.created_at);
            assert(enc_at(buf@, p8 as int, enc_opt_u64(m0.updated_at)));
        }
    }
    let r_updated_at = read_opt_u64(buf, p8);
    let (updated_at, p9) = match r_updated_at {
        Some(v) => v,
        None => {
            proof {
                if has {
                    assert(false);
                }
            }
            return None;
        },
    };
    proof {
        if has {
            assert(updated_at == m0.updated_at);
            assert(p9 == buf@.len());
        }
    }
    if p9 != buf.len() {
        proof {
            if has {
                assert(false);
            }
        }
        return None;
    }
    let f = SupplyOrder { id, title, farmer_id, wholesaler_id, product_types, products, is_complete, created_at, updated_at };
    proof {
        lemma_enc_u64(id);
        lemma_enc_u64(farmer_id);
        lemma_enc_u64(created_at);
        lemma_enc_at_join(
            buf@,
            p7 as int,
            enc_u64(created_at),
            enc_opt_u64(updated_at),
        );
        lemma_enc_at_join(
            buf@,
            p6 as int,
            enc_bool(is_complete),
            enc_u64(created_at) + (enc_opt_u64(updated_at)),
        );
        lemma_enc_at_join(
            buf@,
            p5 as int,
            enc_pair_list(pair_views(products@)),
            enc_bool(is_complete) + (enc_u64(created_at) + (enc_opt_u64(updated_at))),
        );
        lemma_enc_at_join(
            buf@,
            p4 as int,
            enc_str_list(str_views(product_types@)),
            enc_pair_list(pair_views(products@)) + (enc_bool(is_complete) + (enc_u64(created_at) + (enc_opt_u64(updated_at)))),
        );
        lemma_enc_at_join(
            buf@,
            p3 as int,
            enc_opt_u64(wholesaler_id),
            enc_str_list(str_views(product_types@)) + (enc_pair_list(pair_views(products@)) + (enc_bool(is_complete) + (enc_u64(created_at) + (enc_opt_u64(updated_at))))),
        );
        lemma_enc_at_join(
            buf@,
            p2 as int,
            enc_u64(farmer_id),
            enc_opt_u64(wholesaler_id) + (enc_str_list(str_views(product_types@)) + (enc_pair_list(pair_views(products@)) + (enc_bool(is_complete) + (enc_u64(created_at) + (enc_opt_u64(updated_at)))))),
        );
        lemma_enc_at_join(
            buf@,
            p1 as int,
            enc_str(title@),
            enc_u64(farmer_id) + (enc_opt_u64(wholesaler_id) + (enc_str_list(str_views(product_types@)) + (enc_pair_list(pair_views(products@)) + (enc_bool(is_complete) + (enc_u64(created_at) + (enc_opt_u64(updated_at))))))),
        );
        lemma_enc_at_join(
            buf@,
            0,
            enc_u64(id),
            enc_str(title@) + (enc_u64(farmer_id) + (enc_opt_u64(wholesaler_id) + (enc_str_list(str_views(product_types@)) + (enc_pair_list(pair_views(products@)) + (enc_bool(is_complete) + (enc_u64(created_at) + (enc_opt_u64(updated_at)))))))),
        );
        assert(buf@ =~= enc_supply_order(f@));
        assert forall|m: SupplyOrderModel| buf@ == enc_supply_order(m) implies f@ == m by {
            lemma_enc_supply_order_inj(buf@, m, m0);
        }
    }
    Some(f)
}

} // verus!
