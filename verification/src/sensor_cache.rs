//! A sensor-smoothing cache: raw readings are classified by their distance
//! from the last accepted reading, so a single wild value does not disturb
//! consumers.

use vstd::prelude::*;

verus! {

/// A classified reading: accepted into the cache, rejected as too far from
/// the expected value, or the expected value standing in for a failed read.
#[derive(Debug)]
pub enum SensorValue<T, E> {
    Plausible(T),
    Implausible(T),
    Error(T, E),
}

/// Smooths an integer-valued sensor: a reading further than `epsilon` from
/// the expected value (the last accepted reading) is rejected; accepted
/// readings are cached and become the new expectation.
pub struct SmoothedSensor {
    cache: Vec<i64>,
    epsilon: i64,
}

impl SmoothedSensor {
    /// The accepted readings, oldest first.
    pub closed spec fn spec_cache(&self) -> Seq<i64> {
        self.cache@
    }

    /// The largest distance from the expected value a reading may have and
    /// still be accepted.
    pub closed spec fn spec_epsilon(&self) -> i64 {
        self.epsilon
    }

    /// A reading is plausible when nothing was accepted yet, or when it lies
    /// within `epsilon` of the expected value.
    pub open spec fn spec_plausible(&self, value: i64) -> bool {
        self.spec_cache().len() == 0 || {
            let expected = self.spec_cache().last();
            -(self.spec_epsilon() as int) <= value - expected <= self.spec_epsilon() as int
        }
    }

    /// A sensor cache accepting readings within `epsilon` of the last one.
    pub fn new(epsilon: i64) -> (r: SmoothedSensor)
        ensures
            r.spec_cache() == Seq::<i64>::empty(),
            r.spec_epsilon() == epsilon,
    {
        SmoothedSensor { cache: Vec::new(), epsilon }
    }

    /// The value the sensor is expected to read: the last accepted reading.
    pub fn expected_value(&self) -> (r: i64)
        requires
            self.spec_cache().len() > 0,
        ensures
            r == self.spec_cache().last(),
    {
        self.cache[self.cache.len() - 1]
    }

    /// Classify a raw read. A successful reading is accepted (and cached)
    /// exactly when it is plausible; a failed read yields the expected value
    /// together with the error, which is why the first read must succeed.
    pub fn read<E>(&mut self, sample: Result<i64, E>) -> (r: SensorValue<i64, E>)
        requires
            sample is Err ==> old(self).spec_cache().len() > 0,
        ensures
            final(self).spec_epsilon() == old(self).spec_epsilon(),
            match sample {
                Ok(v) => {
                    if old(self).spec_plausible(v) {
                        &&& final(self).spec_cache() == old(self).spec_cache().push(v)
                        &&& r == SensorValue::<i64, E>::Plausible(v)
                    } else {
                        &&& final(self).spec_cache() == old(self).spec_cache()
                        &&& r == SensorValue::<i64, E>::Implausible(v)
                    }
                },
                Err(e) => {
                    &&& *final(self) == *old(self)
                    &&& r == SensorValue::<i64, E>::Error(old(self).spec_cache().last(), e)
                },
            },
    {
        match sample {
            Ok(value) => {
                let plausible = if self.cache.len() == 0 {
                    true
                } else {
                    let expected = self.cache[self.cache.len() - 1];
                    let d: i128 = value as i128 - expected as i128;
                    let distance: i128 = if d < 0 {
                        -d
                    } else {
                        d
                    };
                    distance <= self.epsilon as i128
                };
                if plausible {
                    self.cache.push(value);
                    SensorValue::Plausible(value)
                } else {
                    SensorValue::Implausible(value)
                }
            },
            Err(error) => {
                let expected = self.cache[self.cache.len() - 1];
                SensorValue::Error(expected, error)
            },
        }
    }
}

} // verus!
