# dpf

Builds the default `DPUFlavor` resource for DPUs and derives the name that follows from a flavor's
content.

- `src/flavor.rs`: the default flavor, its files and parameters, and the name of a flavor.
- `src/proxy.rs`: which proxy settings are accepted, and the systemd drop-in they become.
- `src/crds.rs`: the resource, and the JSON document that its spec stands for.
- `src/document.rs`: writes that document, and shows that different specs are written differently.
- `src/json.rs`: JSON values and their compact text.
- `src/digest.rs`: names made from a SHA-256 digest.
- `src/ordering.rs`, `src/text.rs`: the order of strings, sorting, trimming, joining, digits.
- `src/laws.rs`: what holds of flavors as a whole.
- `app/`: the flavor with Kubernetes metadata.

The functions in `src/` are verified with Verus. What is taken on trust are the contracts of the
functions marked `external_body` and of one `assume_specification`: they wrap `serde_json`, `sha2`,
`hex` and `str::trim`.
