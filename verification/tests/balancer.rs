use palisade::balancer::LoadBalancer;
use palisade::config::ValidatedUpstream;
use palisade::error::ProxyError;
use palisade::upstream::UpstreamPool;
use palisade::uri::Uri;
use std::time::{Duration, Instant};

const LONG_COOLDOWN: Duration = Duration::from_secs(30);

fn make_pool(specs: &[(&str, u32)]) -> UpstreamPool {
    make_pool_with_cooldown(specs, LONG_COOLDOWN)
}

fn make_pool_with_cooldown(specs: &[(&str, u32)], cooldown: Duration) -> UpstreamPool {
    let validated = specs
        .iter()
        .map(|(addr, weight)| ValidatedUpstream {
            uri: Uri::parse(addr).unwrap(),
            weight: *weight,
        })
        .collect::<Vec<ValidatedUpstream>>();
    UpstreamPool::from_validated(&validated, cooldown)
}

fn next_uri(balancer: &mut LoadBalancer) -> String {
    let i = balancer.next().unwrap();
    balancer.pool().all()[i].uri().text().to_owned()
}

fn text_of(addr: &str) -> String {
    Uri::parse(addr).unwrap().text().to_owned()
}

fn wait(span: Duration) {
    let start = Instant::now();
    while start.elapsed() < span {}
}

#[test]
fn single_backend_always_selected() {
    let mut balancer = LoadBalancer::new(make_pool(&[("http://b1:3000", 1)]));
    for _ in 0..10 {
        assert_eq!(next_uri(&mut balancer), text_of("http://b1:3000"));
    }
}

#[test]
fn equal_weight_round_robins() {
    let mut balancer =
        LoadBalancer::new(make_pool(&[("http://b1:3000", 1), ("http://b2:3000", 1)]));
    let first = next_uri(&mut balancer);
    let second = next_uri(&mut balancer);
    let third = next_uri(&mut balancer);

    assert_ne!(first, second);
    assert_eq!(first, third);
}

#[test]
fn weighted_distribution_respects_weights() {
    let mut balancer =
        LoadBalancer::new(make_pool(&[("http://b1:3000", 3), ("http://b2:3000", 1)]));
    let mut b1_count = 0u32;
    let mut b2_count = 0u32;
    let b1_uri = text_of("http://b1:3000");

    for _ in 0..400 {
        if next_uri(&mut balancer) == b1_uri {
            b1_count += 1;
        } else {
            b2_count += 1;
        }
    }

    assert_eq!(b1_count, 300);
    assert_eq!(b2_count, 100);
}

#[test]
fn skips_unhealthy_backends() {
    let mut balancer =
        LoadBalancer::new(make_pool(&[("http://b1:3000", 1), ("http://b2:3000", 1)]));
    balancer.backend_mut(0).mark_unhealthy();

    for _ in 0..10 {
        assert_eq!(next_uri(&mut balancer), text_of("http://b2:3000"));
    }
}

#[test]
fn all_unhealthy_returns_error() {
    let mut balancer =
        LoadBalancer::new(make_pool(&[("http://b1:3000", 1), ("http://b2:3000", 1)]));
    balancer.backend_mut(0).mark_unhealthy();
    balancer.backend_mut(1).mark_unhealthy();

    let result = balancer.next();
    assert!(result.is_err());
    assert_eq!(result, Err(ProxyError::NoHealthyUpstream));
}

#[test]
fn recovery_after_mark_healthy() {
    let mut balancer =
        LoadBalancer::new(make_pool(&[("http://b1:3000", 1), ("http://b2:3000", 1)]));
    balancer.backend_mut(0).mark_unhealthy();
    balancer.backend_mut(1).mark_unhealthy();
    assert!(balancer.next().is_err());

    balancer.backend_mut(0).mark_healthy();
    assert_eq!(next_uri(&mut balancer), text_of("http://b1:3000"));
}

#[test]
fn large_weight_does_not_allocate_slot_table() {
    let mut balancer = LoadBalancer::new(make_pool(&[("http://b1:3000", u32::MAX)]));
    for _ in 0..5 {
        assert_eq!(next_uri(&mut balancer), text_of("http://b1:3000"));
    }
}

#[test]
fn ejected_backend_recovers_after_cooldown() {
    let mut balancer = LoadBalancer::new(make_pool_with_cooldown(
        &[("http://b1:3000", 1)],
        Duration::from_millis(20),
    ));
    balancer.backend_mut(0).mark_unhealthy();
    // During cooldown the only backend is ineligible.
    assert!(balancer.next().is_err());

    wait(Duration::from_millis(40));
    // Once the cooldown elapses the ejected backend earns a trial.
    assert!(balancer.next().is_ok());
}

#[test]
fn smooth_order_of_a_heavy_backend() {
    let mut balancer = LoadBalancer::new(make_pool(&[
        ("http://a:1", 5),
        ("http://b:1", 1),
        ("http://c:1", 1),
    ]));
    let clock = [0u64, 0, 0];
    let picks: Vec<usize> = (0..14).map(|_| balancer.next_at(&clock).unwrap()).collect();
    // The turns of the heavy backend are spread out, and the order repeats.
    assert_eq!(picks, [0, 0, 1, 0, 2, 0, 0, 0, 0, 1, 0, 2, 0, 0]);
}

#[test]
fn a_running_weight_may_pass_the_total() {
    // With these weights the running weight of a backend leaves the range of
    // the total around zero; the shares are exact all the same.
    let weights = [3u32, 48, 48, 13, 1];
    let addrs = ["http://a:1", "http://b:1", "http://c:1", "http://d:1", "http://e:1"];
    let specs: Vec<(&str, u32)> = addrs.into_iter().zip(weights).collect();
    let mut balancer = LoadBalancer::new(make_pool(&specs));
    let clock = [0u64; 5];
    let mut counts = [0u32; 5];
    for _ in 0..113 {
        counts[balancer.next_at(&clock).unwrap()] += 1;
    }
    assert_eq!(counts, weights);
}

#[test]
fn a_trial_rearms_the_cooldown() {
    let mut balancer = LoadBalancer::new(make_pool_with_cooldown(
        &[("http://a:1", 1)],
        Duration::from_millis(100),
    ));
    balancer.backend_mut(0).mark_unhealthy_at(1000);
    assert_eq!(balancer.next_at(&[1099]), Err(ProxyError::NoHealthyUpstream));
    assert_eq!(balancer.next_at(&[1100]), Ok(0));
    assert_eq!(balancer.next_at(&[1199]), Err(ProxyError::NoHealthyUpstream));
    assert_eq!(balancer.next_at(&[1200]), Ok(0));
    // Selection does not readmit it.
    assert!(!balancer.pool().all()[0].is_healthy());
}

#[test]
fn an_empty_pool_has_no_backend() {
    let mut balancer = LoadBalancer::new(make_pool(&[]));
    assert_eq!(balancer.next(), Err(ProxyError::NoHealthyUpstream));
}

#[test]
fn backends_of_weight_zero_only_serve_when_alone() {
    let mut balancer = LoadBalancer::new(make_pool(&[("http://a:1", 0), ("http://b:1", 2)]));
    for _ in 0..4 {
        assert_eq!(balancer.next_at(&[0, 0]), Ok(1));
    }
    balancer.backend_mut(1).mark_unhealthy_at(0);
    assert_eq!(balancer.next_at(&[0, 0]), Ok(0));
}
