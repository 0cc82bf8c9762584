use whisburn_engine::cluster::ClusterMerger;

fn cosine_distance(a: &[f32], b: &[f32]) -> f32 {
    let dot: f32 = a.iter().zip(b).map(|(x, y)| x * y).sum();
    let na: f32 = a.iter().map(|x| x * x).sum::<f32>().sqrt();
    let nb: f32 = b.iter().map(|x| x * x).sum::<f32>().sqrt();
    (1.0 - dot / (na * nb).max(1e-8)).clamp(0.0, 2.0)
}

fn centroid(ids: &[usize], embeds: &[Vec<f32>]) -> Vec<f32> {
    let mut c = vec![0f32; embeds[0].len()];
    for &i in ids {
        for (d, v) in c.iter_mut().zip(&embeds[i]) {
            *d += *v;
        }
    }
    c.iter().map(|v| v / ids.len() as f32).collect()
}

/// Centroid-linkage clustering driven over the merger, as the diarizer does it.
fn agglomerative(embeds: &[Vec<f32>], threshold: f32) -> Vec<usize> {
    let n = embeds.len();
    let mut m = ClusterMerger::new(n);
    loop {
        let mut best = f32::MAX;
        let mut pair = None;
        for i in 0..n {
            for j in (i + 1)..n {
                if m.active(i) && m.active(j) {
                    let d = cosine_distance(&centroid(m.members_of(i), embeds), &centroid(m.members_of(j), embeds));
                    if d < best {
                        best = d;
                        pair = Some((i, j));
                    }
                }
            }
        }
        match pair {
            Some((i, j)) if best <= threshold => m.merge(i, j),
            _ => return m.labels(),
        }
    }
}

#[test]
fn two_groups() {
    let a = vec![1.0, 0.0];
    let b = vec![0.9, 0.1];
    let c = vec![0.0, 1.0];
    let d = vec![0.1, 0.9];
    let labels = agglomerative(&[a, b, c, d], 0.4);
    assert_eq!(labels[0], labels[1]);
    assert_eq!(labels[2], labels[3]);
    assert_ne!(labels[0], labels[2]);
}

#[test]
fn merges_into_groups() {
    // items 0, 2 together; 1, 3, 4 together
    let mut c = ClusterMerger::new(5);
    c.merge(1, 3);
    c.merge(0, 2);
    c.merge(1, 4);
    assert_eq!(c.labels(), vec![0, 1, 0, 1, 1]);
    assert_eq!(c.members_of(1), &vec![1, 3, 4]);
    assert_eq!(c.members_of(0), &vec![0, 2]);
    assert!(!c.active(3));
    assert!(c.members_of(3).is_empty());
}

#[test]
fn labels_follow_first_items() {
    let mut c = ClusterMerger::new(4);
    assert_eq!(c.labels(), vec![0, 1, 2, 3]);
    c.merge(0, 3);
    assert_eq!(c.labels(), vec![0, 1, 2, 0]);
    c.merge(1, 2);
    c.merge(0, 1);
    assert_eq!(c.labels(), vec![0, 0, 0, 0]);
    assert_eq!(c.members_of(0), &vec![0, 3, 1, 2]);
    assert_eq!(c.size(), 4);
    assert!(ClusterMerger::new(0).labels().is_empty());
}
