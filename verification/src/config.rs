//! Engine configuration and object geometry.

use vstd::prelude::*;
use vstd::arithmetic::div_mod::*;
use crate::math::{
    checked_up_to_nearest, is_lcm, lcm, lcm_fits, lemma_lcm_fits, lemma_multiple_of_product, lemma_up_to_nearest, spec_up_to_nearest,
    up_to_nearest,
};

verus! {

/// Configuration of one engine.
#[derive(Clone, Copy, Debug)]
pub struct UfoCoreConfig {
    /// Directory for the scratch files of the writeback stores.
    pub writeback_temp_path: &'static str,
    /// Resident bytes above which chunks are evicted.
    pub high_watermark: usize,
    /// Resident bytes down to which an eviction pass reclaims.
    pub low_watermark: usize,
}

impl UfoCoreConfig {
    /// The low watermark lies strictly below the high one.
    pub open spec fn valid(&self) -> bool {
        self.low_watermark < self.high_watermark
    }

    /// Whether the watermarks are in order.
    pub fn is_valid(&self) -> (b: bool)
        ensures
            b == self.valid(),
    {
        self.low_watermark < self.high_watermark
    }
}

/// What all objects of one kind share: header size, element size, and the
/// least number of elements to load at once.
#[derive(Clone, Copy, Debug)]
pub struct UfoObjectConfigPrototype {
    pub header_size: usize,
    pub stride: usize,
    pub min_load_ct: Option<usize>,
}

/// Geometry of one object. All sizes are in bytes.
#[derive(Clone, Copy, Debug)]
pub struct UfoObjectConfig {
    /// The header rounded up to whole pages.
    pub header_size_with_padding: usize,
    /// The header as the user sees it.
    pub header_size: usize,
    /// Bytes per element.
    pub stride: usize,
    /// Elements per chunk.
    pub elements_loaded_at_once: usize,
    /// Elements in the object.
    pub element_ct: usize,
    /// Padded header plus the body rounded up to whole pages.
    pub true_size: usize,
    /// The page size that the geometry was computed for.
    pub page_size: usize,
}

/// The least number of elements per load that a prototype asks for: 1 where it
/// names none.
pub open spec fn spec_min_load(min_load_ct: Option<usize>) -> int {
    match min_load_ct {
        Some(n) => n as int,
        None => 1,
    }
}

impl UfoObjectConfigPrototype {
    /// A prototype with these parameters.
    pub fn new_prototype(header_size: usize, stride: usize, min_load_ct: Option<usize>) -> (p:
        UfoObjectConfigPrototype)
        ensures
            p.header_size == header_size,
            p.stride == stride,
            p.min_load_ct == min_load_ct,
    {
        UfoObjectConfigPrototype { header_size, stride, min_load_ct }
    }

    /// The geometry of an object of `ct` elements of this kind, on pages of
    /// `page_size` bytes.
    pub fn new_config(&self, ct: usize, page_size: usize) -> (cfg: UfoObjectConfig)
        requires
            UfoObjectConfig::spec_fits(
                self.header_size,
                ct,
                self.stride,
                self.min_load_ct,
                page_size,
            ),
        ensures
            cfg.is_geometry_of(self.header_size, ct, self.stride, self.min_load_ct, page_size),
            cfg.wf() <==> self.min_load_ct != Some(0usize),
    {
        UfoObjectConfig::new_config(self.header_size, ct, self.stride, self.min_load_ct, page_size)
    }
}

impl UfoObjectConfig {
    /// Bytes per chunk.
    pub open spec fn load_size(&self) -> int {
        self.elements_loaded_at_once * self.stride
    }

    /// Bytes of the body: the elements, without padding.
    pub open spec fn body_bytes(&self) -> int {
        self.stride * self.element_ct
    }

    /// The geometry is consistent: header and chunks are page-aligned, chunks
    /// hold whole elements, and the sizes fit the machine.
    pub open spec fn wf(&self) -> bool {
        &&& self.page_size > 0
        &&& self.stride > 0
        &&& self.element_ct > 0
        &&& self.elements_loaded_at_once > 0
        &&& self.body_bytes() <= usize::MAX
        &&& self.load_size() <= usize::MAX
        &&& self.load_size() % (self.page_size as int) == 0
        &&& self.header_size_with_padding == spec_up_to_nearest(
            self.header_size as int,
            self.page_size as int,
        )
        &&& self.true_size == self.header_size_with_padding + spec_up_to_nearest(
            self.body_bytes(),
            self.page_size as int,
        )
    }

    /// A well-formed geometry reserves memory: at least the padded body, which
    /// holds the elements.
    pub proof fn lemma_true_size(&self)
        requires
            self.wf(),
        ensures
            0 < self.body_bytes() <= self.true_size - self.header_size_with_padding,
            self.header_size <= self.header_size_with_padding,
            self.load_size() > 0,
    {
        assert(self.body_bytes() > 0) by (nonlinear_arith)
            requires
                self.body_bytes() == self.stride * self.element_ct,
                self.stride > 0,
                self.element_ct > 0,
        ;
        assert(self.load_size() > 0) by (nonlinear_arith)
            requires
                self.load_size() == self.elements_loaded_at_once * self.stride,
                self.stride > 0,
                self.elements_loaded_at_once > 0,
        ;
        lemma_up_to_nearest(self.body_bytes(), self.page_size as int);
        lemma_up_to_nearest(self.header_size as int, self.page_size as int);
    }

    /// Header, chunks and the whole reservation are made of whole pages, and
    /// chunks of whole elements.
    pub proof fn lemma_alignment(&self)
        requires
            self.wf(),
        ensures
            self.header_size_with_padding % self.page_size == 0,
            self.load_size() % (self.page_size as int) == 0,
            self.load_size() % (self.stride as int) == 0,
            self.true_size % self.page_size == 0,
    {
        let page = self.page_size as int;
        self.lemma_true_size();
        lemma_up_to_nearest(self.body_bytes(), page);
        lemma_up_to_nearest(self.header_size as int, page);
        let padded_body = spec_up_to_nearest(self.body_bytes(), page);
        lemma_add_mod_noop(self.header_size_with_padding as int, padded_body, page);
        lemma_small_mod(0, page as nat);
        lemma_mod_multiples_basic(self.elements_loaded_at_once as int, self.stride as int);
    }

    /// The parameters are in order and every size derived from them fits in
    /// `usize`.
    pub open spec fn spec_fits(
        header_size: usize,
        element_ct: usize,
        stride: usize,
        min_load_ct: Option<usize>,
        page_size: usize,
    ) -> bool {
        &&& page_size > 0
        &&& stride > 0
        &&& element_ct > 0
        &&& stride * element_ct <= usize::MAX
        &&& spec_up_to_nearest(header_size as int, page_size as int) + spec_up_to_nearest(
            stride * element_ct,
            page_size as int,
        ) <= usize::MAX
        &&& stride * spec_min_load(min_load_ct) <= usize::MAX
        &&& lcm_fits(page_size as int, stride * spec_min_load(min_load_ct))
    }

    /// `self` is the geometry that these parameters give: the header padded to
    /// pages, the body padded to pages behind it, and chunks of
    /// `lcm(page_size, stride * min_load_ct)` bytes.
    pub open spec fn is_geometry_of(
        &self,
        header_size: usize,
        element_ct: usize,
        stride: usize,
        min_load_ct: Option<usize>,
        page_size: usize,
    ) -> bool {
        &&& self.header_size == header_size
        &&& self.element_ct == element_ct
        &&& self.stride == stride
        &&& self.page_size == page_size
        &&& self.header_size_with_padding == spec_up_to_nearest(
            header_size as int,
            page_size as int,
        )
        &&& self.true_size == self.header_size_with_padding + spec_up_to_nearest(
            stride * element_ct,
            page_size as int,
        )
        &&& is_lcm(self.load_size(), page_size as int, stride * spec_min_load(min_load_ct))
    }

    /// The geometry of an object with these parameters, where they are in order
    /// and the sizes fit the machine; else none.
    pub fn try_new_config(
        header_size: usize,
        element_ct: usize,
        stride: usize,
        min_load_ct: Option<usize>,
        page_size: usize,
    ) -> (made: Option<UfoObjectConfig>)
        ensures
            made is Some <==> Self::spec_fits(
                header_size,
                element_ct,
                stride,
                min_load_ct,
                page_size,
            ),
            made matches Some(cfg) ==> cfg.is_geometry_of(
                header_size,
                element_ct,
                stride,
                min_load_ct,
                page_size,
            ) && (cfg.wf() <==> min_load_ct != Some(0usize)),
    {
        if stride == 0 || element_ct == 0 || page_size == 0 {
            return None;
        }
        let least: usize = match min_load_ct {
            Some(n) => n,
            None => 1,
        };
        let body: usize = match stride.checked_mul(element_ct) {
            Some(b) => b,
            None => {
                return None;
            },
        };
        proof {
            lemma_up_to_nearest(header_size as int, page_size as int);
            lemma_up_to_nearest(body as int, page_size as int);
        }
        let header_padded: usize = match checked_up_to_nearest(header_size, page_size) {
            Some(h) => h,
            None => {
                return None;
            },
        };
        let body_padded: usize = match checked_up_to_nearest(body, page_size) {
            Some(b) => b,
            None => {
                return None;
            },
        };
        if header_padded.checked_add(body_padded).is_none() {
            return None;
        }
        let unit: usize = match stride.checked_mul(least) {
            Some(u) => u,
            None => {
                return None;
            },
        };
        let wide: u128 = lcm(page_size, unit);
        proof {
            lemma_lcm_fits(wide as int, page_size as int, unit as int);
        }
        if wide > usize::MAX as u128 {
            return None;
        }
        Some(Self::new_config(header_size, element_ct, stride, min_load_ct, page_size))
    }

    /// The geometry of an object with these parameters, on pages of `page_size`
    /// bytes. A `min_load_ct` of zero gives chunks of no elements: such a
    /// geometry is not well-formed.
    pub fn new_config(
        header_size: usize,
        element_ct: usize,
        stride: usize,
        min_load_ct: Option<usize>,
        page_size: usize,
    ) -> (cfg: UfoObjectConfig)
        requires
            Self::spec_fits(header_size, element_ct, stride, min_load_ct, page_size),
        ensures
            cfg.is_geometry_of(header_size, element_ct, stride, min_load_ct, page_size),
            cfg.wf() <==> min_load_ct != Some(0usize),
    {
        let min_load_ct: usize = match min_load_ct {
            Some(n) => n,
            None => 1,
        };

        /* Headers and size */
        proof {
            lemma_up_to_nearest(header_size as int, page_size as int);
            lemma_up_to_nearest(stride * element_ct, page_size as int);
        }
        let header_size_with_padding: usize = up_to_nearest(header_size, page_size);
        let body_size_with_padding: usize = up_to_nearest(stride * element_ct, page_size);
        let true_size: usize = header_size_with_padding + body_size_with_padding;

        /* loading quanta */
        let wide: u128 = lcm(page_size, stride * min_load_ct);
        proof {
            lemma_lcm_fits(wide as int, page_size as int, stride * min_load_ct);
        }
        let min_load_bytes: usize = wide as usize;
        let elements_loaded_at_once: usize = min_load_bytes / stride;
        proof {
            let unit: int = stride * min_load_ct;
            if min_load_ct == 0 {
                assert(unit == 0) by (nonlinear_arith)
                    requires
                        unit == stride * min_load_ct,
                        min_load_ct == 0,
                ;
                assert(elements_loaded_at_once * stride == 0) by (nonlinear_arith)
                    requires
                        elements_loaded_at_once == 0,
                ;
            } else {
                assert(unit > 0) by (nonlinear_arith)
                    requires
                        unit == stride * min_load_ct,
                        stride > 0,
                        min_load_ct > 0,
                ;
                lemma_multiple_of_product(min_load_bytes as int, stride as int, min_load_ct as int);
                lemma_fundamental_div_mod(min_load_bytes as int, stride as int);
                assert(elements_loaded_at_once * stride == stride * elements_loaded_at_once)
                    by (nonlinear_arith);
                assert(elements_loaded_at_once > 0) by (nonlinear_arith)
                    requires
                        elements_loaded_at_once * stride == min_load_bytes,
                        min_load_bytes > 0,
                        stride > 0,
                ;
            }
        }
        assert(elements_loaded_at_once * stride == min_load_bytes);

        UfoObjectConfig {
            header_size,
            stride,
            header_size_with_padding,
            true_size,
            elements_loaded_at_once,
            element_ct,
            page_size,
        }
    }
}

} // verus!
